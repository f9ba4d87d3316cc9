//! Building and writing ANSI escape sequences. Every method states exactly
//! which line reaches the device.

use vstd::prelude::*;
use vstd::string::*;
use crate::digits::{dec_chars, usize_to_string};
use crate::tty::IO;

verus! {

/// An escape sequence: the escape character, `[`, and the body.
pub open spec fn esc_of(body: Seq<char>) -> Seq<char> {
    seq!['\u{1b}', '['] + body
}

/// The cursor-positioning sequence for (zero-based) `line` and `column`.
pub open spec fn pos_esc(line: int, column: int) -> Seq<char> {
    esc_of(dec_chars(line + 1) + seq![';'] + dec_chars(column + 1) + seq!['H'])
}

/// A device behind the escape-sequence writer.
pub struct Ansi<T: IO> {
    pub io: Box<T>,
}

impl<T: IO> Ansi<T> {
    /// Writes `message` as an escape sequence.
    pub fn escape(&mut self, message: &str)
        ensures
            final(self).io.out() == old(self).io.out().push(esc_of(message@)),
            final(self).io.last_out() == esc_of(message@),
            final(self).io.inp() == old(self).io.inp(),
    {
        let out = Self::esc(message);
        // A device error has been recorded by the device itself; there is
        // nothing further to do with it here.
        let _ = self.io.write(out.as_str());
    }

    /// The escape prefix followed by `input`.
    fn esc(input: &str) -> (r: String)
        ensures
            r@ == esc_of(input@),
    {
        proof {
            reveal_strlit("\u{1b}[");
        }
        let mut r = String::from_str("\u{1b}[");
        r.append(input);
        proof {
            assert(r@ =~= esc_of(input@));
        }
        r
    }

    /// Clears the whole screen.
    pub fn clear(&mut self)
        ensures
            final(self).io.out() == old(self).io.out().push(esc_of("2J"@)),
            final(self).io.inp() == old(self).io.inp(),
    {
        self.escape("2J");
    }

    /// Hides the cursor.
    pub fn hide_cursor(&mut self)
        ensures
            final(self).io.out() == old(self).io.out().push(esc_of("?251"@)),
            final(self).io.inp() == old(self).io.inp(),
    {
        self.escape("?251");
    }

    /// Shows the cursor.
    pub fn show_cursor(&mut self)
        ensures
            final(self).io.out() == old(self).io.out().push(esc_of("?25h"@)),
            final(self).io.inp() == old(self).io.inp(),
    {
        self.escape("?25h");
    }

    /// Moves the cursor to the zero-based `line` and `column`.
    pub fn set_position(&mut self, line: usize, column: usize)
        requires
            line < usize::MAX,
            column < usize::MAX,
        ensures
            final(self).io.out() == old(self).io.out().push(pos_esc(line as int, column as int)),
            final(self).io.inp() == old(self).io.inp(),
    {
        proof {
            reveal_strlit(";");
            reveal_strlit("H");
        }
        let mut message = usize_to_string(line + 1);
        message.append(";");
        let tail = usize_to_string(column + 1);
        message.append(tail.as_str());
        message.append("H");
        proof {
            assert(message@ =~= dec_chars(line + 1) + seq![';'] + dec_chars(column + 1)
                + seq!['H']);
        }
        self.escape(message.as_str());
    }

    /// Writes `line` with the video-inverted attribute around it.
    pub fn inverted(&mut self, line: &str)
        ensures
            final(self).io.out() == old(self).io.out().push(
                esc_of("7m"@) + line@ + esc_of("0m"@),
            ),
            final(self).io.last_out() == esc_of("7m"@) + line@ + esc_of("0m"@),
            final(self).io.inp() == old(self).io.inp(),
    {
        let mut compound = Self::esc("7m");
        compound.append(line);
        let end = Self::esc("0m");
        compound.append(end.as_str());
        proof {
            assert(compound@ =~= esc_of("7m"@) + line@ + esc_of("0m"@));
        }
        let _ = self.io.write(compound.as_str());
    }

    /// Writes `line` as it stands.
    pub fn print(&mut self, line: &str)
        ensures
            final(self).io.out() == old(self).io.out().push(line@),
            final(self).io.last_out() == line@,
            final(self).io.inp() == old(self).io.inp(),
    {
        let _ = self.io.write(line);
    }

    /// Moves to `line` and erases it.
    pub fn blank_line(&mut self, line: usize)
        requires
            line < usize::MAX,
        ensures
            final(self).io.out() == old(self).io.out().push(pos_esc(line as int, 0)).push(
                esc_of("2K"@),
            ),
            final(self).io.inp() == old(self).io.inp(),
    {
        self.set_position(line, 0);
        self.escape("2K");
    }
}

} // verus!
