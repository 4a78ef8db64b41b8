use tsheet::position::{base_10_to_col_num, base_26_to_10, format_position, parse_position, Position};
use tsheet::table::{keep_numeric, Data, Direction, Table};

fn num(s: &str) -> Data {
    Data::Number(s.to_string())
}

fn text(s: &str) -> Data {
    Data::String(s.to_string())
}

fn cell_text(d: &Data) -> (char, String) {
    match d {
        Data::Number(s) => ('n', s.clone()),
        Data::String(s) => ('s', s.clone()),
        Data::Equation(s) => ('f', s.clone()),
    }
}

fn grid(t: &Table) -> Vec<Vec<(char, String)>> {
    t.get_rows().iter().map(|r| r.iter().map(cell_text).collect()).collect()
}

fn sample() -> Table {
    Table::from_rows(
        vec![vec![num("1"), num("2"), num("3")], vec![text("a"), text("b"), text("c")]],
        vec![5, 6, 7],
    )
}

#[test]
fn from_rows_pads_short_rows_with_zero() {
    let t = Table::from_rows(vec![vec![num("1")], vec![text("a"), text("b")]], vec![]);
    assert_eq!(t.get_size(), [2, 2]);
    assert_eq!(grid(&t)[0], vec![('n', "1".to_string()), ('n', "0".to_string())]);
    assert_eq!(t.get_col_widths(), &vec![10, 10]);
}

#[test]
fn mutations_keep_row_and_column_views_equal() {
    let mut t = sample();
    t.set_value_at_position(&Position { row: 1, col: 2 }, num("9"));
    t.add_row(1);
    t.add_col(0);
    t.remove_row(0);
    t.remove_col(2);
    t.set_value_at_position(&Position { row: 0, col: 0 }, Data::Equation("1+1".to_string()));
    let rows = t.get_rows();
    assert_eq!(t.get_size(), [2, 3]);
    for r in 0..2 {
        for c in 0..3 {
            t.set_cursor_pos(r, c);
            let seen_by_column = t.cursor_pos_is_empty();
            let seen_by_row = match &rows[r][c] {
                Data::String(s) | Data::Equation(s) => s.is_empty(),
                Data::Number(_) => false,
            };
            assert_eq!(seen_by_column, seen_by_row);
        }
    }
    assert_eq!(cell_text(&rows[0][0]), ('f', "1+1".to_string()));
    assert_eq!(cell_text(&rows[1][3 - 1]), ('n', "9".to_string()));
}

#[test]
fn add_row_inserts_empty_text_cells() {
    let mut t = sample();
    t.add_row(1);
    let g = grid(&t);
    assert_eq!(g.len(), 3);
    assert_eq!(g[1], vec![('s', String::new()); 3]);
    assert_eq!(g[2][0], ('s', "a".to_string()));
}

#[test]
fn add_col_inserts_default_width() {
    let mut t = sample();
    t.add_col(1);
    assert_eq!(t.get_col_widths(), &vec![5, 10, 6, 7]);
    assert_eq!(grid(&t)[0][1], ('s', String::new()));
    assert_eq!(grid(&t)[0][2], ('n', "2".to_string()));
}

#[test]
fn remove_col_drops_width_and_moves_cursor_left() {
    let mut t = sample();
    t.set_cursor_pos(0, 2);
    t.remove_col(1);
    assert_eq!(t.get_col_widths(), &vec![5, 7]);
    assert_eq!(t.get_pos(), Position { row: 0, col: 1 });
    assert_eq!(grid(&t)[1], vec![('s', "a".to_string()), ('s', "c".to_string())]);
}

#[test]
fn removing_row_zero_under_cursor_keeps_cursor_at_row_zero() {
    let mut t = sample();
    assert_eq!(t.get_pos(), Position { row: 0, col: 0 });
    t.remove_row(0);
    assert_eq!(t.get_pos(), Position { row: 0, col: 0 });
    assert_eq!(t.get_size(), [1, 3]);
    assert_eq!(grid(&t)[0][0], ('s', "a".to_string()));
}

#[test]
fn removing_last_row_moves_cursor_up() {
    let mut t = sample();
    t.set_cursor_pos(1, 0);
    t.remove_row(1);
    assert_eq!(t.get_pos().row, 0);
}

#[test]
fn cursor_moves_stop_at_edges() {
    let mut t = sample();
    t.move_cursor(Direction::Up);
    t.move_cursor(Direction::Left);
    assert_eq!(t.get_pos(), Position { row: 0, col: 0 });
    t.move_cursor(Direction::Down);
    t.move_cursor(Direction::Down);
    t.move_cursor(Direction::Down);
    assert_eq!(t.get_pos().row, 1);
    assert!(t.cursor_at_bottom());
    t.move_cursor(Direction::MostRight);
    assert_eq!(t.get_pos().col, 2);
    assert!(t.cursor_at_right());
    t.move_cursor(Direction::Right);
    assert_eq!(t.get_pos().col, 2);
    t.move_cursor(Direction::Top);
    t.move_cursor(Direction::MostLeft);
    assert_eq!(t.get_pos(), Position { row: 0, col: 0 });
    t.move_cursor(Direction::Bottom);
    assert_eq!(t.get_pos().row, 1);
}

#[test]
fn reversed_range_is_empty() {
    let t = sample();
    let v = t.get_values_at_range(&Position { row: 2, col: 2 }, &Position { row: 0, col: 0 });
    assert!(v.is_empty());
}

#[test]
fn range_is_row_major_and_blank_outside() {
    let t = sample();
    let v = t.get_values_at_range(&Position { row: 0, col: 1 }, &Position { row: 2, col: 2 });
    let got: Vec<(char, String)> = v.iter().map(cell_text).collect();
    assert_eq!(
        got,
        vec![
            ('n', "2".to_string()),
            ('n', "3".to_string()),
            ('s', "b".to_string()),
            ('s', "c".to_string()),
            ('s', String::new()),
            ('s', String::new()),
        ]
    );
}

#[test]
fn range_over_numbers_and_text() {
    let t = Table::from_rows(vec![vec![num("3"), text("x"), num("5")]], vec![]);
    let v = t.get_values_at_range(&Position { row: 0, col: 0 }, &Position { row: 0, col: 2 });
    let got: Vec<(char, String)> = v.iter().map(cell_text).collect();
    assert_eq!(got, vec![('n', "3".to_string()), ('s', "x".to_string()), ('n', "5".to_string())]);
    let numeric: Vec<(char, String)> = keep_numeric(v).iter().map(cell_text).collect();
    assert_eq!(numeric, vec![('n', "3".to_string()), ('n', "5".to_string())]);
}

#[test]
fn formulas_count_as_numeric_cells() {
    let v = vec![Data::Equation("1+1".to_string()), text(""), num("2")];
    let numeric: Vec<(char, String)> = keep_numeric(v).iter().map(cell_text).collect();
    assert_eq!(numeric, vec![('f', "1+1".to_string()), ('n', "2".to_string())]);
}

#[test]
fn get_value_outside_grid_is_empty_text() {
    let t = sample();
    assert_eq!(cell_text(&t.get_value_at_position(&Position { row: 9, col: 0 })), ('s', String::new()));
    assert_eq!(cell_text(&t.get_value_at_position(&Position { row: 0, col: 9 })), ('s', String::new()));
}

#[test]
fn appending_keeps_number_while_it_parses() {
    let mut t = Table::from_rows(vec![vec![num("1")]], vec![]);
    let p = Position { row: 0, col: 0 };
    t.append_text_to_cell(&p, ".".to_string());
    assert_eq!(cell_text(&t.get_value_at_position(&p)), ('n', "1.".to_string()));
    t.append_text_to_cell(&p, "5".to_string());
    assert_eq!(cell_text(&t.get_value_at_position(&p)), ('n', "1.5".to_string()));
    t.append_text_to_cell(&p, "x".to_string());
    assert_eq!(cell_text(&t.get_value_at_position(&p)), ('s', "1.5x".to_string()));
}

#[test]
fn appending_digits_to_empty_text_makes_a_number() {
    let mut t = Table::from_rows(vec![vec![text("")]], vec![]);
    let p = Position { row: 0, col: 0 };
    t.append_text_to_cell(&p, "4".to_string());
    assert_eq!(cell_text(&t.get_value_at_position(&p)), ('n', "4".to_string()));
    t.append_text_to_cell(&p, "e".to_string());
    assert_eq!(cell_text(&t.get_value_at_position(&p)), ('s', "4e".to_string()));
    t.append_text_to_cell(&p, "2".to_string());
    assert_eq!(cell_text(&t.get_value_at_position(&p)), ('n', "4e2".to_string()));
}

#[test]
fn appending_to_formula_keeps_formula() {
    let mut t = Table::from_rows(vec![vec![Data::Equation(String::new())]], vec![]);
    let p = Position { row: 0, col: 0 };
    t.append_text_to_cell(&p, "1".to_string());
    assert_eq!(cell_text(&t.get_value_at_position(&p)), ('f', "1".to_string()));
}

#[test]
fn trimming_to_empty_gives_empty_text_except_formula() {
    let mut t = Table::from_rows(vec![vec![num("5"), Data::Equation("x".to_string()), text("ab")]], vec![]);
    let a = Position { row: 0, col: 0 };
    let b = Position { row: 0, col: 1 };
    let c = Position { row: 0, col: 2 };
    t.remove_last_char_in_cell(&a);
    t.remove_last_char_in_cell(&b);
    t.remove_last_char_in_cell(&c);
    assert_eq!(cell_text(&t.get_value_at_position(&a)), ('s', String::new()));
    assert_eq!(cell_text(&t.get_value_at_position(&b)), ('f', String::new()));
    assert_eq!(cell_text(&t.get_value_at_position(&c)), ('s', "a".to_string()));
    t.remove_last_char_in_cell(&b);
    assert_eq!(cell_text(&t.get_value_at_position(&b)), ('f', String::new()));
}

#[test]
fn convert_and_clear_cell() {
    let mut t = sample();
    let p = Position { row: 0, col: 0 };
    t.convert_cell(&p, Data::Equation(String::new()));
    assert!(t.cursor_pos_is_empty());
    t.clear_cell(&Position { row: 1, col: 1 });
    assert_eq!(cell_text(&t.get_value_at_position(&Position { row: 1, col: 1 })), ('s', String::new()));
}

#[test]
fn parse_b2_is_row_one_col_one() {
    assert_eq!(parse_position("B2"), Some(Position { row: 1, col: 1 }));
    assert_eq!(parse_position("b2"), Some(Position { row: 1, col: 1 }));
    let t = sample();
    assert_eq!(t.human_position_to_position("B2".to_string()), Position { row: 1, col: 1 });
}

#[test]
fn format_uses_bijective_letters() {
    assert_eq!(base_10_to_col_num(1 + 1), "B");
    assert_eq!(format_position(&Position { row: 1, col: 1 }), "B2");
    assert_eq!(base_10_to_col_num(26), "Z");
    assert_eq!(base_10_to_col_num(27), "AA");
    assert_eq!(base_10_to_col_num(0), "");
}

#[test]
fn parse_and_format_disagree_on_two_letters() {
    let p = parse_position("AA1").unwrap();
    assert_eq!(p, Position { row: 0, col: 0 });
    assert_eq!(format_position(&p), "A1");
}

#[test]
fn position_text_without_digits_is_rejected() {
    assert_eq!(parse_position("AB"), None);
    assert_eq!(parse_position(""), None);
    assert_eq!(parse_position("A0"), None);
    assert_eq!(parse_position("A1B"), None);
    assert_eq!(parse_position("12"), Some(Position { row: 11, col: 0 }));
    let t = sample();
    assert_eq!(t.human_position_to_position("AB".to_string()), Position { row: 0, col: 0 });
}

#[test]
fn base_26_positional_decode() {
    assert_eq!(base_26_to_10("a".to_string()), 0);
    assert_eq!(base_26_to_10("ba".to_string()), 26);
    assert_eq!(base_26_to_10("BB".to_string()), 27);
}

#[test]
fn viewport_window_around_cursor() {
    let rows: Vec<Vec<Data>> = (0..40).map(|i| vec![num(&i.to_string())]).collect();
    let mut t = Table::from_rows(rows, vec![]);
    assert_eq!(t.find_displayable_rows(30), [0, 15]);
    t.set_cursor_pos(20, 0);
    assert_eq!(t.find_displayable_rows(30), [5, 35]);
    t.set_cursor_pos(39, 0);
    assert_eq!(t.find_displayable_rows(30), [24, 40]);
    assert_eq!(t.find_displayable_cols(6), [0, 1]);
}

#[test]
fn cell_display_cuts_or_pads() {
    assert_eq!(num("123456").display(4, true, false, ""), "1234");
    assert_eq!(num("123456").display(4, true, true, ""), "123456");
    assert_eq!(text("ab").display(4, true, false, ""), "ab  ");
    let f = Data::Equation("1+1".to_string());
    assert_eq!(f.display(5, true, false, "2"), "2    ");
    assert_eq!(f.display(2, false, false, "2"), "1+1");
}

#[test]
fn column_widths_can_be_read_and_changed() {
    let mut t = sample();
    assert_eq!(t.get_col_width(1), Some(6));
    assert_eq!(t.get_col_width(3), None);
    t.resize_col(1, 12);
    assert_eq!(t.get_col_widths(), &vec![5, 12, 7]);
}

#[test]
fn set_data_replaces_cells_and_clamps_cursor() {
    let mut t = sample();
    t.set_cursor_pos(1, 2);
    t.set_data(vec![vec![text("z")]]);
    assert_eq!(t.get_size(), [1, 1]);
    assert_eq!(t.get_pos(), Position { row: 0, col: 0 });
    assert_eq!(t.get_col_widths(), &vec![5]);
    assert_eq!(grid(&t), vec![vec![('s', "z".to_string())]]);
}
