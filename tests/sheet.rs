use tsheet::number::parses_as_number;
use tsheet::sheet_tokenizer::{parse, Token};
use tsheet::table::{Data, Table};

fn cells(t: &Table) -> Vec<Vec<String>> {
    t.get_rows()
        .iter()
        .map(|r| {
            r.iter()
                .map(|d| match d {
                    Data::Number(s) => format!("n{}", s),
                    Data::String(s) => format!("s{}", s),
                    Data::Equation(s) => format!("f{}", s),
                })
                .collect()
        })
        .collect()
}

#[test]
fn tokenizer_reads_sheet_text() {
    let toks = parse("[4,\"a b\",(1+(2)),3.5.]\n?");
    let shown: Vec<String> = toks
        .iter()
        .map(|t| match t {
            Token::LBracket => "[".to_string(),
            Token::RBracket => "]".to_string(),
            Token::Comma => ",".to_string(),
            Token::String(s) => format!("S{}", s),
            Token::Expr(s) => format!("E{}", s),
            Token::Number(s) => format!("N{}", s),
            Token::Unknown(c) => format!("U{}", c),
        })
        .collect();
    assert_eq!(shown, vec!["[", "N4", ",", "Sa b", ",", "E1+(2)", ",", "N3.5", "U.", "]", "U?"]);
}

#[test]
fn sheet_text_with_widths_row() {
    let t = Table::from_sheet_tokens(parse("[4,12,]\n[1,\"x\",]\n[(1+1),]\n"));
    assert_eq!(t.get_col_widths(), &vec![4, 12]);
    assert_eq!(cells(&t), vec![vec!["n1", "sx"], vec!["f1+1", "n0"]]);
}

#[test]
fn sheet_text_without_widths_row() {
    let t = Table::from_sheet_tokens(parse("[\"a\",2,]\n"));
    assert_eq!(t.get_col_widths(), &vec![10, 10]);
    assert_eq!(cells(&t), vec![vec!["sa", "n2"]]);
}

#[test]
fn empty_sheet_text_gives_one_empty_cell() {
    let t = Table::from_sheet_tokens(parse(""));
    assert_eq!(t.get_size(), [1, 1]);
    assert_eq!(cells(&t), vec![vec!["s"]]);
}

#[test]
fn sheet_round_trip() {
    let t = Table::from_sheet_tokens(parse("[4,12,]\n[1,\"x\",]\n[(1+1),2.5,]\n"));
    let text = t.to_sheet();
    assert_eq!(text, "[4,12,]\n[1,\"x\",]\n[(1+1),2.5,]\n");
    let u = Table::from_sheet_tokens(parse(&text));
    assert_eq!(cells(&u), cells(&t));
}

#[test]
fn csv_rows_and_trailing_line() {
    let t = Table::from_csv("1,a\n2,b\n3,c", ',');
    assert_eq!(cells(&t), vec![vec!["n1", "sa"], vec!["n2", "sb"], vec!["n3", "sc"]]);
    assert_eq!(t.get_col_widths(), &vec![10, 10]);
}

#[test]
fn csv_trailing_line_of_other_length_is_dropped() {
    let t = Table::from_csv("1,a\n2,b\n", ',');
    assert_eq!(cells(&t), vec![vec!["n1", "sa"], vec!["n2", "sb"]]);
    let u = Table::from_csv("1,a\n3", ',');
    assert_eq!(cells(&u), vec![vec!["n1", "sa"]]);
}

#[test]
fn csv_without_newline_has_no_rows() {
    let t = Table::from_csv("1,2,3", ',');
    assert_eq!(t.get_size(), [0, 0]);
}

#[test]
fn number_texts() {
    for s in ["1", "1.", ".5", "-2", "+3e10", "1E-3", "inf", "-Infinity", "NaN"] {
        assert!(parses_as_number(s), "{}", s);
        assert_eq!(s.parse::<f64>().is_ok(), true);
    }
    for s in ["", ".", "e5", "1e", "1.2.3", "abc", "1x", "--1", "1e+"] {
        assert!(!parses_as_number(s), "{}", s);
        assert_eq!(s.parse::<f64>().is_ok(), false);
    }
}
