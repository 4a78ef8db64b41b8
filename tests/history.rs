use tsheet::command_line::CommandLine;
use tsheet::program::{KeyStep, Mode, Program};
use tsheet::table::{Data, Table};
use tsheet::undo_tree::UndoTree;

fn one(s: &str) -> Vec<Vec<Data>> {
    vec![vec![Data::String(s.to_string())]]
}

fn first(rows: &[Vec<Data>]) -> String {
    match &rows[0][0] {
        Data::String(s) | Data::Number(s) | Data::Equation(s) => s.clone(),
    }
}

#[test]
fn save_undo_redo_walk_the_chain() {
    let mut h = UndoTree::new(one("a"));
    h.save(one("b"));
    h.save(one("c"));
    assert_eq!(h.get_id(), 2);
    assert_eq!(first(&h.undo().unwrap()), "b");
    assert_eq!(first(&h.undo().unwrap()), "a");
    assert!(h.undo().is_none());
    assert_eq!(h.get_id(), 0);
    assert_eq!(first(&h.redo().unwrap()), "b");
    assert_eq!(first(&h.get_state()), "b");
}

#[test]
fn save_after_undo_orphans_the_redo_branch() {
    let mut h = UndoTree::new(one("a"));
    h.save(one("b"));
    assert!(h.undo().is_some());
    h.save(one("c"));
    assert!(h.redo().is_none());
    assert_eq!(first(&h.get_state()), "c");
    assert_eq!(h.get_id(), 1);
    assert_eq!(first(&h.undo().unwrap()), "a");
    assert_eq!(first(&h.redo().unwrap()), "c");
}

#[test]
fn program_undo_restores_table_and_reports() {
    let table = Table::from_rows(one("a"), vec![]);
    let mut p = Program::new("f.tsheet", table, CommandLine::new(0, 30));
    p.save_state();
    p.table.append_text_to_cell(&p.table.get_pos(), "x".to_string());
    p.save_state();
    p.undo();
    assert_eq!(first(&p.table.get_rows()), "a");
    p.undo();
    p.command_line.clear_text();
    p.undo();
    assert!(p.command_line.display().contains("Cannot undo"));
    p.redo();
    p.redo();
    assert_eq!(first(&p.table.get_rows()), "ax");
    p.redo();
    assert!(p.command_line.display().contains("Cannot redo"));
}

#[test]
fn program_redo_fails_after_new_save() {
    let table = Table::from_rows(one("a"), vec![]);
    let mut p = Program::new("f.tsheet", table, CommandLine::new(0, 30));
    p.save_state();
    p.undo();
    p.save_state();
    p.redo();
    assert!(p.command_line.display().contains("Cannot redo"));
}

#[test]
fn modes_and_path() {
    let table = Table::from_rows(one("a"), vec![]);
    let mut p = Program::new("f.tsheet", table, CommandLine::new(0, 30));
    assert!(p.is_mode(Mode::Normal));
    p.set_mode(Mode::Insert);
    assert_eq!(p.current_mode(), Mode::Insert);
    assert_eq!(p.get_file_path(), "f.tsheet");
}

#[test]
fn key_counts_in_normal_mode() {
    let table = Table::from_rows(one("a"), vec![]);
    let mut p = Program::new("f.tsheet", table, CommandLine::new(0, 30));
    let c = match p.get_key(None, &vec![b'1'], "1".to_string()) {
        KeyStep::Count(n) => n,
        KeyStep::Done(_) => panic!("expected a count"),
    };
    let c = match p.get_key(Some(c), &vec![b'2'], "2".to_string()) {
        KeyStep::Count(n) => n,
        KeyStep::Done(_) => panic!("expected a count"),
    };
    assert_eq!(c, 12);
    match p.get_key(Some(c), &vec![b'j'], "j".to_string()) {
        KeyStep::Done(k) => {
            assert_eq!(k.count, 12);
            assert_eq!(k.action, 'j');
            assert_eq!(k.key, "j");
        },
        KeyStep::Count(_) => panic!("expected a key"),
    }
    match p.get_key(None, &vec![b'x'], "x".to_string()) {
        KeyStep::Done(k) => assert_eq!(k.count, 1),
        KeyStep::Count(_) => panic!("expected a key"),
    }
    p.set_mode(Mode::Insert);
    match p.get_key(None, &vec![b'5'], "5".to_string()) {
        KeyStep::Done(k) => {
            assert_eq!(k.count, 1);
            assert_eq!(k.action, '5');
        },
        KeyStep::Count(_) => panic!("expected a key"),
    }
}

#[test]
fn command_line_editing() {
    let mut c = CommandLine::new(3, 30);
    assert_eq!(c.get_current_text(), "");
    c.add_text_to_current_command("w");
    c.add_text_to_current_command("q");
    assert_eq!(c.get_current_text(), "wq");
    c.remove_last_char();
    assert_eq!(c.get_current_text(), "w");
    assert_eq!(c.display(), "\x1b[s\x1b[30;3Hw\x1b[u");
    c.clear_text();
    c.print("Saved");
    assert_eq!(c.display(), "\x1b[s\x1b[30;3HSaved\x1b[u");
    c.remove_last_char();
    assert_eq!(c.get_current_text(), "");
}
