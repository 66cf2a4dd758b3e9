//! The Forth text that a run of a program is written out as.

use crate::command::Command;
use crate::interpreter::PietProgram;
use crate::text::{char_is_digit, char_is_whitespace, is_digit, is_whitespace};
use vstd::prelude::*;
use vstd::string::{StrSliceExecFns, StringExecFns};

verus! {

/// The line ends in a digit or in white space, so that the next token may
/// follow on the same line.
pub open spec fn stays_on_line(line: Seq<char>) -> bool {
    line.len() > 0 && (is_digit(line.last()) || is_whitespace(line.last()))
}

/// The buffer after `line` has been written: the line, then a space where
/// the line ends in a digit or in white space, and else a newline.
pub open spec fn written(buffer: Seq<char>, line: Seq<char>) -> Seq<char> {
    buffer + line + if stays_on_line(line) {
        seq![' ']
    } else {
        seq!['\n']
    }
}

/// Collects the Forth text in memory, for the file it is to go to.
#[derive(Debug, Clone)]
pub struct Translator {
    output_file: String,
    buffer: String,
}

impl View for Translator {
    type V = Seq<char>;

    /// The text collected so far.
    closed spec fn view(&self) -> Seq<char> {
        self.buffer@
    }
}

impl Translator {
    /// The path of the file the text is meant for.
    pub closed spec fn path(&self) -> Seq<char> {
        self.output_file@
    }

    /// A translator whose text begins with the preamble `base`.
    pub fn new(output_file: String, base: &str) -> (t: Self)
        ensures
            t@ == written(Seq::<char>::empty(), base@),
            t.path() == output_file@,
    {
        let mut t = Translator { output_file, buffer: String::new() };
        t.add_base(base);
        assert(t@ =~= written(Seq::<char>::empty(), base@));
        t
    }

    /// Appends a line or token, and the separator that belongs after it.
    pub fn write(&mut self, line: &str)
        ensures
            final(self)@ == written(old(self)@, line@),
            final(self).path() == old(self).path(),
    {
        self.buffer.append(line);
        let n = line.unicode_len();
        let stays = if n == 0 {
            false
        } else {
            let c = line.get_char(n - 1);
            char_is_digit(c) || char_is_whitespace(c)
        };
        proof {
            reveal_strlit(" ");
            reveal_strlit("\n");
        }
        if stays {
            self.buffer.append(" ");
            assert(" "@ =~= seq![' ']);
        } else {
            self.buffer.append("\n");
            assert("\n"@ =~= seq!['\n']);
        }
    }

    /// Appends the token for `command`; a push is written as the value that
    /// `context` would push.
    pub fn add_command(&mut self, command: &Command, context: &PietProgram)
        requires
            command.is_instruction(),
        ensures
            final(self)@ == written(old(self)@, command.token(context@.current_value)),
            final(self).path() == old(self).path(),
    {
        let forth_command = command.to_forth(context);
        self.write(forth_command.as_str());
    }

    /// Appends the preamble.
    pub fn add_base(&mut self, base: &str)
        ensures
            final(self)@ == written(old(self)@, base@),
            final(self).path() == old(self).path(),
    {
        self.write(base);
    }

    /// The text collected so far.
    pub fn text(&self) -> (s: &str)
        ensures
            s@ == self@,
    {
        self.buffer.as_str()
    }

    /// The path of the file the text is meant for.
    pub fn output_file(&self) -> (s: &str)
        ensures
            s@ == self.path(),
    {
        self.output_file.as_str()
    }
}

/// After a line that ends in neither a digit nor white space the text ends
/// in a newline, so what is written next begins a new line.
pub proof fn lemma_word_ends_line(buffer: Seq<char>, line: Seq<char>)
    ensures
        written(buffer, line).len() == buffer.len() + line.len() + 1,
        !stays_on_line(line) ==> written(buffer, line).last() == '\n',
        stays_on_line(line) ==> written(buffer, line).last() == ' ',
{
}

/// Of the tokens only the number of a push ends in a digit; every other
/// token is a word that ends its line.
pub proof fn lemma_token_separator(c: Command, value: i32)
    requires
        c.is_instruction(),
    ensures
        stays_on_line(c.token(value)) <==> c == Command::Push,
{
    reveal_strlit("DROP");
    reveal_strlit("+");
    reveal_strlit("-");
    reveal_strlit("*");
    reveal_strlit("/");
    reveal_strlit("%");
    reveal_strlit("NOT");
    reveal_strlit("GREATER");
    reveal_strlit("DUP");
    reveal_strlit("PIET-ROLL");
    reveal_strlit("INTEGER-INPUT");
    reveal_strlit("KEY");
    reveal_strlit(".");
    reveal_strlit("EMIT");
    if c == Command::Push {
        crate::text::lemma_numeral_ends_in_digit(value);
    }
}

} // verus!
