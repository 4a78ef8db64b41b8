use tsheet::calculator::{
    enter_evaluation, get_tokens, parse_formula, repeat_text, text_operation, CalculatorError, Lexer, Node,
    Operation, Parser, Token, RECURSION_LIMIT,
};

fn show(n: &Node) -> String {
    match n {
        Node::BinOp(l, op, r) => format!("({} {:?} {})", show(l), op, show(r)),
        Node::String(s) => format!("str:{}", s),
        Node::Number(s) => format!("num:{}", s),
        Node::Ident(s) => format!("id:{}", s),
        Node::Range(a, b) => format!("range:{}:{}", a, b),
        Node::Call(f, args) => format!("{}[{}]", f, args.iter().map(show).collect::<Vec<_>>().join(",")),
    }
}

fn kinds(toks: &[Token]) -> String {
    toks.iter()
        .map(|t| match t {
            Token::Plus => "+".to_string(),
            Token::Minus => "-".to_string(),
            Token::Star => "*".to_string(),
            Token::Div => "/".to_string(),
            Token::Number(s) => format!("N{}", s),
            Token::String(s) => format!("S{}", s),
            Token::LParen => "(".to_string(),
            Token::RParen => ")".to_string(),
            Token::Ident(s) => format!("I{}", s),
            Token::Colon => ":".to_string(),
            Token::Comma => ",".to_string(),
            Token::Eq => "=".to_string(),
        })
        .collect::<Vec<_>>()
        .join(" ")
}

#[test]
fn lexer_reads_every_token_kind() {
    let toks = get_tokens("=1.5+x_1*$A1 - (2/3):,\"a\\nb\\\"c\"");
    assert_eq!(kinds(&toks), "= N1.5 + Ix_1 * I$A1 - ( N2 / N3 ) : , Sa\nb\"c");
}

#[test]
fn lexer_turns_unknown_characters_into_zero() {
    let toks = get_tokens("1 # 2");
    assert_eq!(kinds(&toks), "N1 N0 N2");
}

#[test]
fn lexer_stops_number_at_second_point() {
    let mut lexer = Lexer::new("1.2.3");
    assert_eq!(kinds(&lexer.tokenize()), "N1.2 N0 N3");
}

#[test]
fn lexer_unterminated_string_runs_to_end() {
    assert_eq!(kinds(&get_tokens("\"abc")), "Sabc");
    assert_eq!(kinds(&get_tokens("\"\"")), "S");
}

#[test]
fn one_plus_one_parses_to_sum_of_numbers() {
    assert_eq!(show(&parse_formula("1+1")), "(num:1 Plus num:1)");
}

#[test]
fn products_bind_tighter_and_operators_associate_left() {
    assert_eq!(show(&parse_formula("1-2-3*4/5")), "((num:1 Minus num:2) Minus ((num:3 Mul num:4) Div num:5))");
    assert_eq!(show(&parse_formula("(1+2)*3")), "((num:1 Plus num:2) Mul num:3)");
}

#[test]
fn calls_ranges_and_references() {
    assert_eq!(show(&parse_formula("sum($A1:$B2, 3)")), "sum[range:$A1:$B2,num:3]");
    assert_eq!(show(&parse_formula("rand()")), "rand[]");
    assert_eq!(show(&parse_formula("$A1*x")), "(id:$A1 Mul id:x)");
    assert_eq!(show(&parse_formula("\"ab\"*3")), "(str:ab Mul num:3)");
}

#[test]
fn parser_defaults_on_malformed_input() {
    assert_eq!(show(&parse_formula("")), "num:0");
    assert_eq!(show(&parse_formula("1*")), "(num:1 Mul num:0)");
    assert_eq!(show(&parse_formula("+")), "(num:0 Plus num:0)");
    assert_eq!(show(&parse_formula(")")), "num:0");
    assert_eq!(show(&parse_formula("f(1,")), "f[num:1,num:0]");
    let mut p = Parser::new(get_tokens("a:"));
    assert_eq!(show(&p.build_tree()), "id:a");
}

#[test]
fn strings_join_with_plus() {
    assert_eq!(text_operation(Operation::Plus, "a", "b").unwrap(), "ab");
}

#[test]
fn other_operations_on_strings_are_invalid() {
    assert_eq!(
        text_operation(Operation::Minus, "a", "b").unwrap_err(),
        CalculatorError::InvalidBinaryOp(Operation::Minus)
    );
    assert_eq!(text_operation(Operation::Mul, "a", "b").unwrap_err(), CalculatorError::InvalidBinaryOp(Operation::Mul));
}

#[test]
fn string_repetition() {
    assert_eq!(repeat_text("ab", 3), "ababab");
    assert_eq!(repeat_text("ab", 0), "");
    assert_eq!(repeat_text("ab", 1), "ab");
}

#[test]
fn fresh_counter_allows_exactly_the_limit() {
    let mut counter: u64 = 0;
    for _ in 0..RECURSION_LIMIT {
        assert!(enter_evaluation(&mut counter).is_ok());
    }
    assert_eq!(counter, 1000);
    assert_eq!(enter_evaluation(&mut counter), Err(CalculatorError::RecursionLimit));
    assert_eq!(counter, 1001);
}

#[test]
fn counter_saturates() {
    let mut counter: u64 = u64::MAX;
    assert_eq!(enter_evaluation(&mut counter), Err(CalculatorError::RecursionLimit));
    assert_eq!(counter, u64::MAX);
}
