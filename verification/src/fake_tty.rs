//! An in-memory terminal double: writes are recorded, keystrokes come from
//! a prepared script. It drives the tests and exercises the whole rendering
//! path without a device.

use vstd::prelude::*;
use vstd::string::*;
use crate::tty::IO;

verus! {

/// A fake terminal: `lines` records every write, `last` the latest one, and
/// `input` scripts the keystrokes (next one last).
pub struct FakeIO {
    pub last: String,
    pub lines: Vec<String>,
    pub input: Vec<String>,
}

impl FakeIO {
    /// A fake terminal with no scripted input.
    pub fn new() -> (r: FakeIO)
        ensures
            r.out() == Seq::<Seq<char>>::empty(),
            r.inp() == Seq::<Seq<char>>::empty(),
    {
        FakeIO::new_with_input(Vec::new())
    }

    /// A fake terminal that will yield the scripted keystrokes, last
    /// element first.
    pub fn new_with_input(input: Vec<&str>) -> (r: FakeIO)
        ensures
            r.out() == Seq::<Seq<char>>::empty(),
            r.inp().len() == input@.len(),
            forall|i: int| 0 <= i < input@.len() ==> r.inp()[i] == (#[trigger] input@[i])@,
    {
        let mut actual: Vec<String> = Vec::new();
        let n = input.len();
        let mut i: usize = 0;
        while i < n
            invariant
                n == input@.len(),
                i <= n,
                actual@.len() == i,
                forall|j: int| 0 <= j < i ==> (#[trigger] actual@[j])@ == input@[j]@,
            decreases n - i,
        {
            actual.push(String::from_str(input[i]));
            i = i + 1;
        }
        FakeIO { last: String::from_str("fail"), lines: Vec::new(), input: actual }
    }
}

impl Default for FakeIO {
    /// The same as [`FakeIO::new`].
    fn default() -> (r: FakeIO)
        ensures
            r.out() == Seq::<Seq<char>>::empty(),
            r.inp() == Seq::<Seq<char>>::empty(),
    {
        FakeIO::new_with_input(Vec::new())
    }
}

impl IO for FakeIO {
    open spec fn out(&self) -> Seq<Seq<char>> {
        Seq::new(self.lines@.len(), |i: int| self.lines@[i]@)
    }

    open spec fn inp(&self) -> Seq<Seq<char>> {
        Seq::new(self.input@.len(), |i: int| self.input@[i]@)
    }

    open spec fn last_out(&self) -> Seq<char> {
        self.last@
    }

    fn write(&mut self, line: &str) -> (r: Result<(), String>) {
        self.last = String::from_str(line);
        self.lines.push(String::from_str(line));
        proof {
            assert(self.out() =~= old(self).out().push(line@));
        }
        Ok(())
    }

    fn read(&mut self) -> (r: Option<String>) {
        let r = self.input.pop();
        proof {
            if old(self).input@.len() > 0 {
                assert(self.inp() =~= old(self).inp().drop_last());
            } else {
                assert(self.inp() =~= old(self).inp());
            }
        }
        r
    }

    fn last(&self) -> (r: String) {
        self.last.clone()
    }

    fn lines(&self) -> (r: Vec<String>) {
        crate::clone_strings(&self.lines)
    }

    fn dimensions(&self) -> (usize, usize) {
        (50, 50)
    }

    fn reset(&self) {
    }
}

} // verus!
