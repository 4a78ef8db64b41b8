//! The one-line command area: the text being typed and the last message.
use vstd::prelude::*;
use crate::text::{chars_of, extend_chars, push_text, string_of, usize_text};

verus! {

pub struct CommandLine {
    column: usize,
    line: usize,
    current_text: Option<String>,
    result_text: Option<String>,
}

impl CommandLine {
    pub closed spec fn typed(&self) -> Option<Seq<char>> {
        match self.current_text {
            Some(t) => Some(t@),
            None => None,
        }
    }

    pub closed spec fn message(&self) -> Option<Seq<char>> {
        match self.result_text {
            Some(t) => Some(t@),
            None => None,
        }
    }

    pub closed spec fn place(&self) -> (usize, usize) {
        (self.column, self.line)
    }

    /// An empty command line shown at `column` and `line` of the terminal.
    pub fn new(column: usize, line: usize) -> (r: CommandLine)
        ensures
            r.typed() is None,
            r.message() is None,
            r.place() == (column, line),
    {
        CommandLine { column, line, current_text: None, result_text: None }
    }

    /// The command typed so far ("" when none).
    pub fn get_current_text(&self) -> (r: &str)
        ensures
            r@ == match self.typed() {
                Some(t) => t,
                None => Seq::empty(),
            },
    {
        match &self.current_text {
            None => {
                proof {
                    reveal_strlit("");
                }
                ""
            },
            Some(t) => t.as_str(),
        }
    }

    /// Erases the last character of the typed command, if there is one.
    pub fn remove_last_char(&mut self)
        ensures
            final(self).typed() == match old(self).typed() {
                Some(t) => Some(if t.len() == 0 { t } else { t.drop_last() }),
                None => None,
            },
            final(self).message() == old(self).message(),
            final(self).place() == old(self).place(),
    {
        match &self.current_text {
            Some(t) => {
                let mut v = chars_of(t.as_str());
                if v.len() != 0 {
                    v.pop();
                    self.current_text = Some(string_of(&v));
                }
            },
            None => {},
        }
    }

    /// Forgets the typed command and the message.
    pub fn clear_text(&mut self)
        ensures
            final(self).typed() is None,
            final(self).message() is None,
            final(self).place() == old(self).place(),
    {
        self.current_text = None;
        self.result_text = None;
    }

    /// Appends `text` to the typed command.
    pub fn add_text_to_current_command(&mut self, text: &str)
        ensures
            final(self).typed() == Some(
                match old(self).typed() {
                    Some(t) => t + text@,
                    None => text@,
                },
            ),
            final(self).message() == old(self).message(),
            final(self).place() == old(self).place(),
    {
        let new_text = match &self.current_text {
            None => text.to_owned(),
            Some(t) => {
                let mut s = t.clone();
                push_text(&mut s, text);
                s
            },
        };
        self.current_text = Some(new_text);
    }

    /// The typed command, or else the message, or else nothing.
    pub open spec fn shown(&self) -> Seq<char> {
        match self.typed() {
            Some(t) => t,
            None => match self.message() {
                Some(m) => m,
                None => Seq::empty(),
            },
        }
    }

    /// The terminal text that draws the command line: save the cursor, move to the line and
    /// column, write what is shown, restore the cursor.
    pub fn display(&self) -> (r: String)
        ensures
            r@ == seq!['\x1b', '[', 's', '\x1b', '['] + crate::text::decimal_text(self.place().1 as nat) + seq![';']
                + crate::text::decimal_text(self.place().0 as nat) + seq!['H'] + self.shown() + seq!['\x1b', '[', 'u'],
    {
        let mut v: Vec<char> = Vec::new();
        v.push('\x1b');
        v.push('[');
        v.push('s');
        v.push('\x1b');
        v.push('[');
        extend_chars(&mut v, &usize_text(self.line));
        v.push(';');
        extend_chars(&mut v, &usize_text(self.column));
        v.push('H');
        let shown = match (&self.current_text, &self.result_text) {
            (Some(t), _) => chars_of(t.as_str()),
            (None, Some(t)) => chars_of(t.as_str()),
            _ => Vec::new(),
        };
        extend_chars(&mut v, &shown);
        v.push('\x1b');
        v.push('[');
        v.push('u');
        let r = string_of(&v);
        assert(r@ =~= seq!['\x1b', '[', 's', '\x1b', '['] + crate::text::decimal_text(self.place().1 as nat) + seq![';']
                + crate::text::decimal_text(self.place().0 as nat) + seq!['H'] + self.shown() + seq!['\x1b', '[', 'u']);
        r
    }

    /// Sets the message.
    pub fn print(&mut self, text: &str)
        ensures
            final(self).message() == Some(text@),
            final(self).typed() == old(self).typed(),
            final(self).place() == old(self).place(),
    {
        self.result_text = Some(text.to_owned());
    }
}

} // verus!
