//! A spreadsheet core: cell grid, positions, formula language and undo history.

pub mod calculator;
pub mod command_line;
pub mod number;
pub mod position;
pub mod program;
pub mod sheet_tokenizer;
pub mod table;
pub mod text;
pub mod undo_tree;
