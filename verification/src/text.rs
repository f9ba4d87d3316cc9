//! A rendered display cell: plain text, the highlighted selection, a match
//! with its matched window painted, or an empty row.

use vstd::prelude::*;
use vstd::string::*;
use crate::ansi::{esc_of, Ansi};
use crate::score::{match_wf, Match};
use crate::tty::IO;

verus! {

/// One display cell.
#[derive(Debug, PartialEq)]
pub enum Text {
    Colored(Match),
    Normal(String),
    Highlight(String),
    Blank,
}

/// A colored cell carries a well-formed match.
pub open spec fn text_wf(t: Text) -> bool {
    match t {
        Text::Colored(m) => match_wf(m),
        _ => true,
    }
}

/// The line a cell puts on the device: colored cells paint the matched
/// window blue, highlighted cells are video-inverted, blank cells write
/// nothing.
pub open spec fn printed_of(t: Text) -> Seq<char> {
    match t {
        Text::Colored(m) => m.original@.subrange(0, m.start as int) + "\u{1b}[34m"@
            + m.original@.subrange(m.start as int, m.end as int) + "\u{1b}[0m"@
            + m.original@.subrange(m.end as int, m.original@.len() as int),
        Text::Normal(s) => s@,
        Text::Highlight(s) => esc_of("7m"@) + s@ + esc_of("0m"@),
        Text::Blank => Seq::<char>::empty(),
    }
}

/// Relies on `ansi_term::Colour::Blue.paint`: displaying the painted text
/// yields the blue foreground code `ESC[34m`, the text, and the reset code
/// `ESC[0m`.
#[verifier::external_body]
fn paint_blue(s: &str) -> (r: String)
    ensures
        r@ == "\u{1b}[34m"@ + s@ + "\u{1b}[0m"@,
{
    ansi_term::Colour::Blue.paint(s).to_string()
}

impl Text {
    /// The cell's line as a string, exactly as [`Printable::print`] would
    /// put it on the device.
    pub fn printable(&self) -> (r: String)
        requires
            text_wf(*self),
        ensures
            r@ == printed_of(*self),
    {
        match self {
            Text::Colored(matching) => {
                let (before, middle, after) = matching.parts();
                let painted = paint_blue(middle.as_str());
                let mut text = before;
                text.append(painted.as_str());
                text.append(after.as_str());
                proof {
                    assert(text@ =~= printed_of(*self));
                }
                text
            },
            Text::Normal(text) => text.clone(),
            Text::Highlight(text) => {
                let mut compound = String::from_str("\u{1b}[7m");
                compound.append(text.as_str());
                compound.append("\u{1b}[0m");
                proof {
                    reveal_strlit("\u{1b}[7m");
                    reveal_strlit("\u{1b}[0m");
                    reveal_strlit("7m");
                    reveal_strlit("0m");
                    assert(compound@ =~= printed_of(*self));
                }
                compound
            },
            Text::Blank => String::new(),
        }
    }
}

/// Something that can put itself on the device.
pub trait Printable: Sized {
    spec fn text_wf_of(&self) -> bool;

    spec fn printed_line(&self) -> Seq<char>;

    fn print<T: IO>(self, ansi: &mut Ansi<T>)
        requires
            self.text_wf_of(),
        ensures
            final(ansi).io.out() == old(ansi).io.out().push(self.printed_line()),
            final(ansi).io.inp() == old(ansi).io.inp(),
    ;
}

impl Printable for Text {
    open spec fn text_wf_of(&self) -> bool {
        text_wf(*self)
    }

    open spec fn printed_line(&self) -> Seq<char> {
        printed_of(*self)
    }

    fn print<T: IO>(self, ansi: &mut Ansi<T>) {
        let ghost me = self;
        match self {
            Text::Highlight(text) => {
                proof {
                    assert(esc_of("7m"@) + text@ + esc_of("0m"@) == me.printed_line());
                }
                ansi.inverted(text.as_str());
            },
            other => {
                let line = other.printable();
                proof {
                    assert(line@ == me.printed_line());
                }
                ansi.print(line.as_str());
            },
        }
    }
}

} // verus!
