//! Driving one interactive search on a terminal-like device: painting
//! frames, decoding keystrokes into session transitions, and running the
//! read-transition loop until the session is done.

use vstd::prelude::*;
use vstd::string::*;
use crate::ansi::Ansi;
use crate::fake_tty::FakeIO;
use crate::renderer::Renderer;
use crate::search::{
    append_rel, backspace_rel, blank_shape, down_rel, selection_of, up_rel, wf, Search,
};
use crate::text::{Printable, Text};
use crate::tty::IO;

verus! {

/// A device of known size with an escape-sequence writer on it.
pub struct Screen<T: IO> {
    pub ansi: Ansi<T>,
    pub height: usize,
    pub width: usize,
}

/// One sequence of written lines comes before another.
pub open spec fn out_prefix(a: Seq<Seq<char>>, b: Seq<Seq<char>>) -> bool {
    a.len() <= b.len() && forall|i: int| 0 <= i < a.len() ==> a[i] == #[trigger] b[i]
}

proof fn lemma_out_prefix_trans(a: Seq<Seq<char>>, b: Seq<Seq<char>>, c: Seq<Seq<char>>)
    requires
        out_prefix(a, b),
        out_prefix(b, c),
    ensures
        out_prefix(a, c),
{
}

impl Screen<FakeIO> {
    /// A screen on a fake terminal with no scripted input.
    pub fn fake() -> (s: Screen<FakeIO>)
        ensures
            s.height == 20,
            s.width == 10,
            s.ansi.io.out() == Seq::<Seq<char>>::empty(),
            s.ansi.io.inp() == Seq::<Seq<char>>::empty(),
    {
        Screen::fake_with_input(Vec::new())
    }

    /// A screen on a fake terminal that will yield the scripted keystrokes.
    pub fn fake_with_input(input: Vec<&str>) -> (s: Screen<FakeIO>)
        ensures
            s.height == 20,
            s.width == 10,
            s.ansi.io.out() == Seq::<Seq<char>>::empty(),
            s.ansi.io.inp().len() == input@.len(),
            forall|i: int| 0 <= i < input@.len() ==> s.ansi.io.inp()[i] == (#[trigger] input@[i])@,
    {
        Screen {
            ansi: Ansi { io: Box::new(FakeIO::new_with_input(input)) },
            height: 20,
            width: 10,
        }
    }
}

/// What one keystroke does to a session: control-N moves down, control-P
/// moves up, delete backspaces, newline finishes the search, and anything
/// else is appended to the query.
pub open spec fn keystroke_rel(s: Search, input: Seq<char>, r: Search) -> bool {
    if input == seq!['\u{e}'] {
        down_rel(s, r)
    } else if input == seq!['\u{10}'] {
        up_rel(s, r)
    } else if input == seq!['\u{7f}'] {
        backspace_rel(s, r)
    } else if input == seq!['\n'] {
        r == (Search { done: true, ..s })
    } else {
        append_rel(s, input, r)
    }
}

impl<T: IO> Screen<T> {
    /// Decodes one keystroke and applies it to the session.
    pub fn handle_keystroke(&self, search: Search, input: &str) -> (r: Search)
        requires
            wf(search),
        ensures
            wf(r),
            keystroke_rel(search, input@, r),
    {
        let n = input.unicode_len();
        if n == 1 {
            let c = input.get_char(0);
            proof {
                assert(input@ =~= seq![c]);
            }
            if c == '\u{e}' {
                return search.down();
            }
            if c == '\u{10}' {
                return search.up();
            }
            if c == '\u{7f}' {
                return search.backspace();
            }
            if c == '\n' {
                return search.done();
            }
            search.append_to_search(input)
        } else {
            search.append_to_search(input)
        }
    }

    /// Paints one frame: the rendered cells, bottom-aligned, then the
    /// cursor at the end of the header. Only output is written; the device's
    /// pending input is untouched.
    pub fn print(&mut self, search: &Search)
        requires
            wf(*search),
            search.visible_limit <= old(self).height,
            old(self).height < usize::MAX,
        ensures
            final(self).height == old(self).height,
            final(self).width == old(self).width,
            final(self).ansi.io.inp() == old(self).ansi.io.inp(),
            out_prefix(old(self).ansi.io.out(), final(self).ansi.io.out()),
    {
        let renderer = Renderer;
        let mut texts = renderer.render(search);
        self.ansi.hide_cursor();
        let start_line = self.height - search.visible_limit;
        let n = texts.len();
        let ghost base_out = self.ansi.io.out();
        let ghost base_inp = self.ansi.io.inp();
        let ghost h0 = self.height;
        let ghost w0 = self.width;
        let mut idx: usize = 0;
        while idx < n
            invariant
                idx <= n,
                idx + texts@.len() == n,
                forall|i: int| 0 <= i < texts@.len() ==> (#[trigger] texts@[i]).text_wf_of(),
                self.height == h0,
                self.width == w0,
                h0 < usize::MAX,
                start_line + n <= h0 + 1,
                self.ansi.io.inp() == base_inp,
                out_prefix(base_out, self.ansi.io.out()),
            decreases n - idx,
        {
            let ghost mid_out = self.ansi.io.out();
            let t = texts.remove(0);
            self.write(start_line + idx, t);
            idx = idx + 1;
            proof {
                lemma_out_prefix_trans(base_out, mid_out, self.ansi.io.out());
            }
        }
        let header = renderer.header(search);
        let column = header.as_str().len();
        if column < usize::MAX {
            self.ansi.set_position(start_line, column);
        }
        self.ansi.show_cursor();
    }

    /// Blanks `line` and writes `text` on it.
    pub fn write(&mut self, line: usize, text: Text)
        requires
            text.text_wf_of(),
            line < usize::MAX,
        ensures
            final(self).height == old(self).height,
            final(self).width == old(self).width,
            final(self).ansi.io.inp() == old(self).ansi.io.inp(),
            out_prefix(old(self).ansi.io.out(), final(self).ansi.io.out()),
    {
        self.ansi.blank_line(line);
        self.ansi.set_position(line, 0);
        text.print(&mut self.ansi);
    }

    /// Scrolls `lines` blank lines past, making room for a frame.
    pub fn clear(&mut self, lines: usize)
        ensures
            final(self).height == old(self).height,
            final(self).width == old(self).width,
            final(self).ansi.io.inp() == old(self).ansi.io.inp(),
            final(self).ansi.io.out() == old(self).ansi.io.out() + Seq::new(
                lines as nat,
                |i: int| "\n"@,
            ),
    {
        let ghost base_out = self.ansi.io.out();
        let ghost base_inp = self.ansi.io.inp();
        let ghost h0 = self.height;
        let ghost w0 = self.width;
        let mut i: usize = 0;
        while i < lines
            invariant
                i <= lines,
                self.height == h0,
                self.width == w0,
                self.ansi.io.inp() == base_inp,
                self.ansi.io.out() == base_out + Seq::new(i as nat, |j: int| "\n"@),
            decreases lines - i,
        {
            self.ansi.print("\n");
            i = i + 1;
            proof {
                assert(self.ansi.io.out() =~= base_out + Seq::new(i as nat, |j: int| "\n"@));
            }
        }
    }

    /// Restores the device to its pre-session state.
    pub fn reset(&mut self) {
        self.ansi.io.reset();
    }

    /// Parks the cursor on the last line.
    pub fn move_cursor_to_end(&mut self)
        requires
            old(self).height >= 1,
        ensures
            final(self).height == old(self).height,
            final(self).width == old(self).width,
            final(self).ansi.io.inp() == old(self).ansi.io.inp(),
            out_prefix(old(self).ansi.io.out(), final(self).ansi.io.out()),
    {
        self.ansi.set_position(self.height - 1, 0);
    }

    /// Runs one interactive search to completion: paints a frame, reads a
    /// keystroke, applies it to the session, and stops when the session is
    /// done or the input is exhausted. The value returned is the selection
    /// of the session reached from the blank one by applying the device's
    /// keystrokes (latest pending one first) in turn.
    pub fn run_search(&mut self, lines: Vec<String>, initial_query: Option<String>) -> (r: Option<
        String,
    >)
        requires
            old(self).height < usize::MAX,
        ensures
            final(self).height == old(self).height,
            final(self).width == old(self).width,
            exists|chain: Seq<Search>|
                #![trigger chain.len()]
                {
                    let inp0 = old(self).ansi.io.inp();
                    &&& chain.len() == inp0.len() - final(self).ansi.io.inp().len() + 1
                    &&& blank_shape(
                        chain[0],
                        lines@,
                        initial_query,
                        if 20 <= old(self).height {
                            20
                        } else {
                            old(self).height
                        },
                    )
                    &&& (forall|i: int|
                        0 <= i < chain.len() - 1 ==> keystroke_rel(
                            #[trigger] chain[i],
                            inp0[inp0.len() - 1 - i],
                            chain[i + 1],
                        ))
                    &&& (chain.last().done || final(self).ansi.io.inp().len() == 0)
                    &&& r == selection_of(chain.last())
                },
    {
        let height = if 20 <= self.height {
            20
        } else {
            self.height
        };
        let ghost iq0 = initial_query;
        let mut search = Search::blank(&lines, initial_query, height);
        self.clear(height);
        let ghost h0 = self.height;
        let ghost w0 = self.width;
        let ghost inp0 = self.ansi.io.inp();
        let ghost mut chain: Seq<Search> = seq![search];
        while !search.is_done()
            invariant
                wf(search),
                search.choices@ == lines@,
                search.visible_limit == height,
                height <= self.height,
                self.height == h0,
                self.width == w0,
                h0 < usize::MAX,
                chain.len() >= 1,
                chain.len() - 1 <= inp0.len(),
                self.ansi.io.inp() == inp0.take(inp0.len() - (chain.len() - 1)),
                blank_shape(chain[0], lines@, iq0, height),
                chain.last() == search,
                forall|i: int|
                    0 <= i < chain.len() - 1 ==> keystroke_rel(
                        #[trigger] chain[i],
                        inp0[inp0.len() - 1 - i],
                        chain[i + 1],
                    ),
            ensures
                chain.len() >= 1,
                chain.len() - 1 <= inp0.len(),
                self.height == h0,
                self.width == w0,
                self.ansi.io.inp() == inp0.take(inp0.len() - (chain.len() - 1)),
                blank_shape(chain[0], lines@, iq0, height),
                chain.last() == search,
                forall|i: int|
                    0 <= i < chain.len() - 1 ==> keystroke_rel(
                        #[trigger] chain[i],
                        inp0[inp0.len() - 1 - i],
                        chain[i + 1],
                    ),
                search.done || self.ansi.io.inp().len() == 0,
            decreases self.ansi.io.inp().len(),
        {
            self.print(&search);
            let input = self.ansi.io.read();
            match input {
                Some(character) => {
                    let ghost consumed = chain.len() - 1;
                    search = self.handle_keystroke(search, character.as_str());
                    proof {
                        assert(character@ == inp0[inp0.len() - 1 - consumed]);
                        chain = chain.push(search);
                        assert(self.ansi.io.inp() =~= inp0.take(inp0.len() - (chain.len() - 1)));
                    }
                },
                None => {
                    proof {
                        assert(self.ansi.io.inp().len() == 0);
                    }
                    break;
                },
            }
        }
        proof {
            assert(inp0.take(inp0.len() - (chain.len() - 1)).len() == inp0.len() - (chain.len()
                - 1));
        }
        search.selection()
    }
}

} // verus!
