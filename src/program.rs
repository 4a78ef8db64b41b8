//! Editor state: mode, the table, the command line and the undo history.
use vstd::prelude::*;
use crate::command_line::CommandLine;
use crate::table::{padded, Table};
use crate::undo_tree::UndoTree;

verus! {

#[derive(Debug, Clone, Copy, PartialEq, Eq, Structural)]
pub enum Mode {
    Normal,
    Insert,
    Command,
}

/// A key press: how many times to apply it, its first byte as a character, and its text.
pub struct KeySequence {
    pub count: usize,
    pub action: char,
    pub key: String,
}

/// Terminal size in columns and lines.
pub struct TermInfo {
    pub cols: usize,
    pub lines: usize,
}

pub struct Program {
    mode: Mode,
    file_path: String,
    undo_tree: UndoTree,
    pub table: Table,
    pub command_line: CommandLine,
    pub running: bool,
    pub term_info: TermInfo,
}

/// What one read of the keyboard gives while a key press is being assembled.
pub enum KeyStep {
    /// A count digit was read: read again, with this count so far.
    Count(usize),
    /// The key press is complete.
    Done(KeySequence),
}

impl Program {
    pub closed spec fn wf(&self) -> bool {
        self.table.wf() && self.undo_tree.wf()
    }

    pub closed spec fn history(&self) -> UndoTree {
        self.undo_tree
    }

    pub closed spec fn sheet(&self) -> Table {
        self.table
    }

    pub closed spec fn console(&self) -> CommandLine {
        self.command_line
    }

    pub closed spec fn is_running(&self) -> bool {
        self.running
    }

    pub closed spec fn mode(&self) -> Mode {
        self.mode
    }

    pub closed spec fn path(&self) -> Seq<char> {
        self.file_path@
    }

    /// An editor in normal mode on `table`, whose history holds the table's cells.
    pub fn new(fp: &str, table: Table, command_line: CommandLine) -> (r: Program)
        requires
            table.wf(),
        ensures
            r.wf(),
            r.mode() == Mode::Normal,
            r.path() == fp@,
            r.is_running(),
            r.sheet() == table,
            r.console() == command_line,
            r.history()@.nodes.len() == 1,
            r.history()@.nodes[0].state == table.cells(),
    {
        let rows = table.get_rows();
        Program {
            mode: Mode::Normal,
            file_path: fp.to_owned(),
            undo_tree: UndoTree::new(rows),
            table,
            command_line,
            running: true,
            term_info: TermInfo { cols: 30, lines: 20 },
        }
    }

    /// Saves the table's cells in the history.
    pub fn save_state(&mut self)
        requires
            old(self).wf(),
        ensures
            final(self).wf(),
            final(self).history()@ == old(self).history()@.saved(old(self).sheet().cells()),
            final(self).sheet() == old(self).sheet(),
            final(self).mode() == old(self).mode(),
    {
        let rows = self.table.get_rows();
        self.undo_tree.save(rows);
    }

    /// Goes back one step in the history and puts that snapshot in the table, or says
    /// "Cannot undo".
    pub fn undo(&mut self)
        requires
            old(self).wf(),
        ensures
            final(self).wf(),
            final(self).mode() == old(self).mode(),
            match old(self).history()@.undone() {
                Some(h) => {
                    &&& final(self).history()@ == h
                    &&& final(self).sheet().cells() == padded(h.active_state())
                    &&& final(self).console().message() == Some(seq!['U', 'n', 'd', 'o'])
                },
                None => {
                    &&& final(self).history()@ == old(self).history()@
                    &&& final(self).sheet() == old(self).sheet()
                    &&& final(self).console().message() == Some(
                        seq!['C', 'a', 'n', 'n', 'o', 't', ' ', 'u', 'n', 'd', 'o'],
                    )
                },
            },
    {
        match self.undo_tree.undo() {
            None => {
                proof {
                    reveal_strlit("Cannot undo");
                }
                self.command_line.print("Cannot undo");
            },
            Some(rows) => {
                proof {
                    reveal_strlit("Undo");
                }
                self.command_line.print("Undo");
                self.table.set_data(rows);
            },
        }
    }

    /// Goes forward one step in the history and puts that snapshot in the table, or says
    /// "Cannot redo".
    pub fn redo(&mut self)
        requires
            old(self).wf(),
        ensures
            final(self).wf(),
            final(self).mode() == old(self).mode(),
            match old(self).history()@.redone() {
                Some(h) => {
                    &&& final(self).history()@ == h
                    &&& final(self).sheet().cells() == padded(h.active_state())
                    &&& final(self).console().message() == Some(seq!['R', 'e', 'd', 'o'])
                },
                None => {
                    &&& final(self).history()@ == old(self).history()@
                    &&& final(self).sheet() == old(self).sheet()
                    &&& final(self).console().message() == Some(
                        seq!['C', 'a', 'n', 'n', 'o', 't', ' ', 'r', 'e', 'd', 'o'],
                    )
                },
            },
    {
        match self.undo_tree.redo() {
            None => {
                proof {
                    reveal_strlit("Cannot redo");
                }
                self.command_line.print("Cannot redo");
            },
            Some(rows) => {
                proof {
                    reveal_strlit("Redo");
                }
                self.command_line.print("Redo");
                self.table.set_data(rows);
            },
        }
    }

    pub fn current_mode(&self) -> (r: Mode)
        ensures
            r == self.mode(),
    {
        self.mode
    }

    pub fn set_mode(&mut self, mode: Mode)
        ensures
            final(self).mode() == mode,
            final(self).sheet() == old(self).sheet(),
            final(self).history() == old(self).history(),
            final(self).wf() == old(self).wf(),
    {
        self.mode = mode;
    }

    pub fn is_mode(&self, mode: Mode) -> (r: bool)
        ensures
            r == (self.mode() == mode),
    {
        self.mode == mode
    }

    pub fn get_file_path(&self) -> (r: &str)
        ensures
            r@ == self.path(),
    {
        self.file_path.as_str()
    }

    /// One read of the keyboard, given the count read so far (`None` before any digit):
    /// `bytes` is what was read and `key` its text. In normal mode a leading digit extends
    /// the count (which stops growing at `usize::MAX`); any other key ends the press, with
    /// the count read (1 when none was). Other modes take each key alone, with count 1.
    pub fn get_key(&self, count: Option<usize>, bytes: &Vec<u8>, key: String) -> (r: KeyStep)
        requires
            bytes@.len() > 0,
        ensures
            match r {
                KeyStep::Count(n) => {
                    &&& self.mode() == Mode::Normal
                    &&& 48 <= bytes@[0] <= 57
                    &&& n == vstd::math::min(
                        (match count { Some(c) => c as int, None => 0 }) * 10 + (bytes@[0] - 48),
                        usize::MAX as int,
                    )
                },
                KeyStep::Done(k) => {
                    &&& (self.mode() != Mode::Normal || !(48 <= bytes@[0] <= 57))
                    &&& k.action == bytes@[0] as char
                    &&& k.key@ == key@
                    &&& k.count == if self.mode() == Mode::Normal {
                        match count { Some(c) => c, None => 1 }
                    } else {
                        1
                    }
                },
            },
    {
        let ch = bytes[0];
        match self.mode {
            Mode::Normal => {
                if ch >= 48 && ch <= 57 {
                    let so_far: usize = match count { Some(c) => c, None => 0 };
                    let digit = (ch - 48) as usize;
                    let n = match so_far.checked_mul(10) {
                        Some(m) => match m.checked_add(digit) {
                            Some(v) => v,
                            None => usize::MAX,
                        },
                        None => usize::MAX,
                    };
                    KeyStep::Count(n)
                } else {
                    KeyStep::Done(KeySequence { action: ch as char, count: match count { Some(c) => c, None => 1 }, key })
                }
            },
            Mode::Insert | Mode::Command => KeyStep::Done(KeySequence { action: ch as char, key, count: 1 }),
        }
    }
}

} // verus!
