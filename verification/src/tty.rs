//! The terminal seam: everything the finder needs from a terminal, as a
//! trait. The real terminal lives outside the library; [`crate::fake_tty`]
//! provides the in-memory double that the tests drive.

use vstd::prelude::*;

verus! {

/// A terminal-like device: it accepts written lines, yields keystrokes, and
/// knows its dimensions. `out` models every line written so far, `inp` the
/// pending keystrokes (next one last), and `last_out` the line written most
/// recently.
pub trait IO {
    open spec fn out(&self) -> Seq<Seq<char>> {
        Seq::empty()
    }

    open spec fn inp(&self) -> Seq<Seq<char>> {
        Seq::empty()
    }

    open spec fn last_out(&self) -> Seq<char> {
        Seq::empty()
    }

    /// Writes one string to the device. The result reports a device error;
    /// the write itself is always recorded.
    fn write(&mut self, line: &str) -> (r: Result<(), String>)
        ensures
            final(self).out() == old(self).out().push(line@),
            final(self).last_out() == line@,
            final(self).inp() == old(self).inp(),
    ;

    /// Takes the next pending keystroke, or nothing when the input is
    /// exhausted.
    fn read(&mut self) -> (r: Option<String>)
        ensures
            final(self).out() == old(self).out(),
            final(self).last_out() == old(self).last_out(),
            match r {
                Some(s) => old(self).inp().len() > 0 && s@ == old(self).inp().last()
                    && final(self).inp() == old(self).inp().drop_last(),
                None => old(self).inp().len() == 0 && final(self).inp() == old(self).inp(),
            },
    ;

    /// The most recently written line.
    fn last(&self) -> (r: String)
        ensures
            r@ == self.last_out(),
    ;

    /// Every line written so far, in order.
    fn lines(&self) -> (r: Vec<String>)
        ensures
            r@.len() == self.out().len(),
            forall|i: int| 0 <= i < r@.len() ==> (#[trigger] r@[i])@ == self.out()[i],
    ;

    /// The device's width and height. Device-dependent; nothing is promised.
    fn dimensions(&self) -> (usize, usize);

    /// Restores the device to its pre-session state.
    fn reset(&self);
}

} // verus!
