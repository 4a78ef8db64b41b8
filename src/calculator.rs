//! The formula language: lexer, recursive-descent parser and expression tree. Number
//! literals are kept as their text; evaluating them is left to the caller.
use vstd::prelude::*;
use crate::sheet_tokenizer::number_end;
use crate::text::{chars_of, extend_chars, is_digit, is_letter, push_text, string_of};

verus! {

/// Why an evaluation failed.
#[derive(Debug, Clone, Copy, PartialEq, Eq, Structural)]
pub enum CalculatorError {
    RecursionLimit,
    InvalidBinaryOp(Operation),
}

#[derive(Debug, Clone, Copy, PartialEq, Eq, Structural)]
pub enum Operation {
    Mul,
    Div,
    Plus,
    Minus,
}

#[derive(Debug, Clone)]
pub enum Token {
    Plus,
    Minus,
    Star,
    Div,
    /// The text of a number literal: digits with at most one point.
    Number(String),
    String(String),
    LParen,
    RParen,
    Ident(String),
    Colon,
    Comma,
    Eq,
}

/// A token, with its text as characters.
pub enum Lexeme {
    Plus,
    Minus,
    Star,
    Div,
    Number(Seq<char>),
    Str(Seq<char>),
    LParen,
    RParen,
    Ident(Seq<char>),
    Colon,
    Comma,
    Eq,
}

impl View for Token {
    type V = Lexeme;

    open spec fn view(&self) -> Lexeme {
        match self {
            Token::Plus => Lexeme::Plus,
            Token::Minus => Lexeme::Minus,
            Token::Star => Lexeme::Star,
            Token::Div => Lexeme::Div,
            Token::Number(s) => Lexeme::Number(s@),
            Token::String(s) => Lexeme::Str(s@),
            Token::LParen => Lexeme::LParen,
            Token::RParen => Lexeme::RParen,
            Token::Ident(s) => Lexeme::Ident(s@),
            Token::Colon => Lexeme::Colon,
            Token::Comma => Lexeme::Comma,
            Token::Eq => Lexeme::Eq,
        }
    }
}

pub open spec fn lexemes(t: Seq<Token>) -> Seq<Lexeme> {
    t.map_values(|k: Token| k@)
}

pub open spec fn is_ident_char(c: char) -> bool {
    is_letter(c) || is_digit(c) || c == '_'
}

/// Index of the first character at or after `i` that cannot continue an identifier.
pub open spec fn ident_end(s: Seq<char>, i: int) -> int
    decreases s.len() - i,
{
    if i < 0 || i >= s.len() {
        s.len() as int
    } else if is_ident_char(s[i]) {
        ident_end(s, i + 1)
    } else {
        i
    }
}

/// The character that a backslash followed by `c` stands for.
pub open spec fn unescaped(c: char) -> char {
    if c == 'n' { '\n' } else { c }
}

/// The contents of a string literal whose body continues at `i`, added to `acc`, and the
/// index after its closing quote (or the length, when it is not closed).
pub open spec fn string_scan(s: Seq<char>, i: int, acc: Seq<char>) -> (Seq<char>, int)
    decreases s.len() - i,
{
    if i < 0 || i >= s.len() {
        (acc, s.len() as int)
    } else if s[i] == '\\' {
        if i + 1 < s.len() { string_scan(s, i + 2, acc.push(unescaped(s[i + 1]))) } else { (acc, s.len() as int) }
    } else if s[i] == '"' {
        (acc, i + 1)
    } else {
        string_scan(s, i + 1, acc.push(s[i]))
    }
}

/// The token that starts at index `i` of formula source `s` (none for a blank), and where
/// lexing goes on. A character that starts no token gives a number token `0`.
pub open spec fn lex_at(s: Seq<char>, i: int) -> (Option<Lexeme>, int) {
    let c = s[i];
    if c == '+' {
        (Some(Lexeme::Plus), i + 1)
    } else if c == '-' {
        (Some(Lexeme::Minus), i + 1)
    } else if c == '*' {
        (Some(Lexeme::Star), i + 1)
    } else if c == '/' {
        (Some(Lexeme::Div), i + 1)
    } else if c == ')' {
        (Some(Lexeme::RParen), i + 1)
    } else if c == '(' {
        (Some(Lexeme::LParen), i + 1)
    } else if c == '=' {
        (Some(Lexeme::Eq), i + 1)
    } else if c == ':' {
        (Some(Lexeme::Colon), i + 1)
    } else if c == ',' {
        (Some(Lexeme::Comma), i + 1)
    } else if c == '$' || is_letter(c) || c == '_' {
        let e = ident_end(s, i + 1);
        (Some(Lexeme::Ident(s.subrange(i, e))), e)
    } else if c == '"' {
        let (body, e) = string_scan(s, i + 1, Seq::empty());
        (Some(Lexeme::Str(body)), e)
    } else if is_digit(c) {
        let e = number_end(s, i + 1, false);
        (Some(Lexeme::Number(s.subrange(i, e))), e)
    } else if c == ' ' || c == '\t' || c == '\n' {
        (None, i + 1)
    } else {
        (Some(Lexeme::Number(seq!['0'])), i + 1)
    }
}

/// The tokens of formula source `s` from index `i` on.
pub open spec fn lexemes_from(s: Seq<char>, i: int) -> Seq<Lexeme>
    decreases s.len() - i,
{
    if i < 0 || i >= s.len() {
        Seq::empty()
    } else {
        let (t, j) = lex_at(s, i);
        if j <= i || j > s.len() {
            Seq::empty()
        } else {
            match t {
                Some(k) => seq![k] + lexemes_from(s, j),
                None => lexemes_from(s, j),
            }
        }
    }
}

pub struct Lexer {
    chars: Vec<char>,
    pos: usize,
}

proof fn lemma_push_lexemes(t: Seq<Token>, k: Token)
    ensures
        lexemes(t.push(k)) == lexemes(t) + seq![k@],
{
    assert(lexemes(t.push(k)) =~= lexemes(t) + seq![k@]);
}

proof fn lemma_concat_assoc(a: Seq<Lexeme>, b: Seq<Lexeme>, c: Seq<Lexeme>)
    ensures
        a + (b + c) == (a + b) + c,
{
    assert(a + (b + c) =~= (a + b) + c);
}

fn sub_string(s: &Vec<char>, from: usize, to: usize) -> (r: String)
    requires
        from <= to <= s.len(),
    ensures
        r@ == s@.subrange(from as int, to as int),
{
    let mut v: Vec<char> = Vec::new();
    let mut k = from;
    while k < to
        invariant
            from <= k <= to <= s.len(),
            v@ == s@.subrange(from as int, k as int),
        decreases to - k,
    {
        v.push(s[k]);
        k += 1;
        assert(v@ =~= s@.subrange(from as int, k as int));
    }
    string_of(&v)
}

impl Lexer {
    pub closed spec fn source(&self) -> Seq<char> {
        self.chars@
    }

    pub closed spec fn position(&self) -> nat {
        self.pos as nat
    }

    /// A lexer at the start of `content`.
    pub fn new(content: &str) -> (r: Lexer)
        ensures
            r.source() == content@,
            r.position() == 0,
    {
        Lexer { chars: chars_of(content), pos: 0 }
    }

    /// The tokens of the rest of the source; the lexer ends at its end. Lexing never fails:
    /// a character that starts no token gives a number token `0`.
    pub fn tokenize(&mut self) -> (r: Vec<Token>)
        ensures
            lexemes(r@) == lexemes_from(old(self).source(), old(self).position() as int),
            final(self).source() == old(self).source(),
    {
        let ghost s = self.chars@;
        let ghost start = self.pos as int;
        let n = self.chars.len();
        let mut tokens: Vec<Token> = Vec::new();
        if self.pos >= n {
            return tokens;
        }
        while self.pos < n
            invariant
                s == self.chars@,
                n == s.len(),
                lexemes_from(s, start) == lexemes(tokens@) + lexemes_from(s, self.pos as int),
            decreases n - self.pos,
        {
            let i = self.pos;
            let c = self.chars[i];
            let ghost before = lexemes(tokens@);
            if c == ' ' || c == '\t' || c == '\n' {
                assert(lex_at(s, i as int) == (None::<Lexeme>, i + 1));
                self.pos = i + 1;
                continue;
            }
            let (tok, next): (Token, usize) = if c == '+' {
                (Token::Plus, i + 1)
            } else if c == '-' {
                (Token::Minus, i + 1)
            } else if c == '*' {
                (Token::Star, i + 1)
            } else if c == '/' {
                (Token::Div, i + 1)
            } else if c == ')' {
                (Token::RParen, i + 1)
            } else if c == '(' {
                (Token::LParen, i + 1)
            } else if c == '=' {
                (Token::Eq, i + 1)
            } else if c == ':' {
                (Token::Colon, i + 1)
            } else if c == ',' {
                (Token::Comma, i + 1)
            } else if c == '$' || ('a' <= c && c <= 'z') || ('A' <= c && c <= 'Z') || c == '_' {
                let mut k = i + 1;
                while k < n && (('a' <= self.chars[k] && self.chars[k] <= 'z') || ('A' <= self.chars[k] && self.chars[k] <= 'Z')
                    || ('0' <= self.chars[k] && self.chars[k] <= '9') || self.chars[k] == '_')
                    invariant
                        s == self.chars@,
                        n == s.len(),
                        i < k <= n,
                        ident_end(s, i + 1) == ident_end(s, k as int),
                    decreases n - k,
                {
                    k += 1;
                }
                assert(ident_end(s, i + 1) == k);
                (Token::Ident(sub_string(&self.chars, i, k)), k)
            } else if c == '"' {
                let mut body: Vec<char> = Vec::new();
                let mut k = i + 1;
                let mut end = n;
                loop
                    invariant_except_break
                        string_scan(s, i + 1, Seq::empty()) == string_scan(s, k as int, body@),
                    invariant
                        s == self.chars@,
                        n == s.len(),
                        i < k <= n + 1,
                        i < end <= n,
                        ensures
                        string_scan(s, i + 1, Seq::empty()) == (body@, end as int),
                        i < end <= n,
                    decreases n + 1 - k,
                {
                    if k >= n {
                        end = n;
                        break;
                    }
                    let ch = self.chars[k];
                    if ch == '\\' {
                        if k + 1 < n {
                            let e = self.chars[k + 1];
                            body.push(if e == 'n' { '\n' } else { e });
                            k += 2;
                        } else {
                            end = n;
                            break;
                        }
                    } else if ch == '"' {
                        end = k + 1;
                        break;
                    } else {
                        body.push(ch);
                        k += 1;
                    }
                }
                (Token::String(string_of(&body)), end)
            } else if '0' <= c && c <= '9' {
                let mut k = i + 1;
                let mut dot = false;
                while k < n && ((self.chars[k] == '.' && !dot) || ('0' <= self.chars[k] && self.chars[k] <= '9'))
                    invariant
                        s == self.chars@,
                        n == s.len(),
                        i < k <= n,
                        number_end(s, i + 1, false) == number_end(s, k as int, dot),
                    decreases n - k,
                {
                    if self.chars[k] == '.' {
                        dot = true;
                    }
                    k += 1;
                }
                assert(number_end(s, i + 1, false) == k);
                (Token::Number(sub_string(&self.chars, i, k)), k)
            } else {
                let zero = vec!['0'];
                assert(zero@ =~= seq!['0']);
                (Token::Number(string_of(&zero)), i + 1)
            };
            proof {
                assert(lex_at(s, i as int) == (Some(tok@), next as int));
                assert(i < next <= n);
                lemma_push_lexemes(tokens@, tok);
                lemma_concat_assoc(before, seq![tok@], lexemes_from(s, next as int));
            }
            tokens.push(tok);
            self.pos = next;
        }
        tokens
    }
}

/// An expression tree, with texts as characters.
pub enum Tree {
    BinOp(Box<Tree>, Operation, Box<Tree>),
    Str(Seq<char>),
    Number(Seq<char>),
    Ident(Seq<char>),
    Range(Seq<char>, Seq<char>),
    Call(Seq<char>, Seq<Tree>),
}

/// A parsed formula. Identifiers keep their `$` when they refer to a cell.
#[derive(Debug)]
pub enum Node {
    BinOp(Box<Node>, Operation, Box<Node>),
    String(String),
    Number(String),
    Ident(String),
    Range(String, String),
    Call(String, Vec<Node>),
}

impl Node {
    pub open spec fn tree(&self) -> Tree
        decreases self,
    {
        match self {
            Node::BinOp(l, op, r) => Tree::BinOp(Box::new(l.tree()), *op, Box::new(r.tree())),
            Node::String(s) => Tree::Str(s@),
            Node::Number(s) => Tree::Number(s@),
            Node::Ident(s) => Tree::Ident(s@),
            Node::Range(a, b) => Tree::Range(a@, b@),
            Node::Call(f, args) => Tree::Call(f@, trees(args@)),
        }
    }
}

pub open spec fn trees(v: Seq<Node>) -> Seq<Tree>
    decreases v,
{
    Seq::new(v.len(), |i: int| if 0 <= i < v.len() { v[i].tree() } else { Tree::Number(Seq::empty()) })
}

/// The token at `i`, if there is one.
pub open spec fn at(t: Seq<Lexeme>, i: int) -> Option<Lexeme> {
    if 0 <= i < t.len() { Some(t[i]) } else { None }
}

/// The index after `i`, which stays at the end once there.
pub open spec fn step(t: Seq<Lexeme>, i: int) -> int {
    if i < t.len() { i + 1 } else { i }
}

/// The number node `0`, which stands for what cannot be parsed.
pub open spec fn zero_tree() -> Tree {
    Tree::Number(seq!['0'])
}

/// `factor := number | string | '(' expr ')' | ident [':' ident | '(' args ')']`, from token
/// `i`: the tree and the index after it. A token that starts no factor gives `0` and is not
/// consumed.
pub open spec fn parse_factor(t: Seq<Lexeme>, i: int) -> (Tree, int)
    decreases t.len() - i, 0nat,
{
    if i < 0 || i > t.len() {
        (zero_tree(), i)
    } else {
        match at(t, i) {
            Some(Lexeme::Number(n)) => (Tree::Number(n), i + 1),
            Some(Lexeme::Str(x)) => (Tree::Str(x), i + 1),
            Some(Lexeme::Ident(x)) => {
                let j = i + 1;
                match at(t, j) {
                    Some(Lexeme::Colon) => {
                        let k = j + 1;
                        match at(t, k) {
                            Some(Lexeme::Ident(y)) => (Tree::Range(x, y), k + 1),
                            _ => (Tree::Ident(x), k),
                        }
                    },
                    Some(Lexeme::LParen) => {
                        let (args, e) = parse_args(t, j + 1, Seq::empty());
                        (Tree::Call(x, args), e)
                    },
                    _ => (Tree::Ident(x), j),
                }
            },
            Some(Lexeme::LParen) => {
                let (e, j) = parse_expr(t, i + 1);
                (e, step(t, j))
            },
            _ => (zero_tree(), i),
        }
    }
}

/// The rest of a `term` whose left operand `left` ends before token `i`.
pub open spec fn parse_term_rest(t: Seq<Lexeme>, i: int, left: Tree) -> (Tree, int)
    decreases t.len() - i, 1nat,
{
    if i < 0 || i > t.len() {
        (left, i)
    } else {
        match at(t, i) {
            Some(Lexeme::Star) => {
                let (f, j) = parse_factor(t, i + 1);
                if i + 1 <= j <= t.len() { parse_term_rest(t, j, Tree::BinOp(Box::new(left), Operation::Mul, Box::new(f))) } else { (left, i) }
            },
            Some(Lexeme::Div) => {
                let (f, j) = parse_factor(t, i + 1);
                if i + 1 <= j <= t.len() { parse_term_rest(t, j, Tree::BinOp(Box::new(left), Operation::Div, Box::new(f))) } else { (left, i) }
            },
            _ => (left, i),
        }
    }
}

/// `term := factor (('*' | '/') factor)*`, left-associative.
pub open spec fn parse_term(t: Seq<Lexeme>, i: int) -> (Tree, int)
    decreases t.len() - i, 2nat,
{
    let (f, j) = parse_factor(t, i);
    if 0 <= i <= j <= t.len() { parse_term_rest(t, j, f) } else { (f, j) }
}

/// The rest of an `expr` whose left operand `left` ends before token `i`.
pub open spec fn parse_expr_rest(t: Seq<Lexeme>, i: int, left: Tree) -> (Tree, int)
    decreases t.len() - i, 3nat,
{
    if i < 0 || i > t.len() {
        (left, i)
    } else {
        match at(t, i) {
            Some(Lexeme::Plus) => {
                let (f, j) = parse_term(t, i + 1);
                if i + 1 <= j <= t.len() { parse_expr_rest(t, j, Tree::BinOp(Box::new(left), Operation::Plus, Box::new(f))) } else { (left, i) }
            },
            Some(Lexeme::Minus) => {
                let (f, j) = parse_term(t, i + 1);
                if i + 1 <= j <= t.len() { parse_expr_rest(t, j, Tree::BinOp(Box::new(left), Operation::Minus, Box::new(f))) } else { (left, i) }
            },
            _ => (left, i),
        }
    }
}

/// `expr := term (('+' | '-') term)*`, left-associative.
pub open spec fn parse_expr(t: Seq<Lexeme>, i: int) -> (Tree, int)
    decreases t.len() - i, 4nat,
{
    let (f, j) = parse_term(t, i);
    if 0 <= i <= j <= t.len() { parse_expr_rest(t, j, f) } else { (f, j) }
}

/// Call arguments from token `i`, after those in `acc`: expressions separated by commas,
/// up to and including the closing parenthesis (whatever token ends the list is skipped).
pub open spec fn parse_args(t: Seq<Lexeme>, i: int, acc: Seq<Tree>) -> (Seq<Tree>, int)
    decreases t.len() - i, 5nat,
{
    if i < 0 || i > t.len() {
        (acc, i)
    } else if at(t, i) == Some(Lexeme::RParen) {
        (acc, i + 1)
    } else {
        let (e, j) = parse_expr(t, i);
        if i <= j < t.len() && t[j] == Lexeme::Comma {
            parse_args(t, j + 1, acc.push(e))
        } else {
            (acc.push(e), step(t, j))
        }
    }
}

pub struct Parser {
    cur_pos: usize,
    tokens: Vec<Token>,
}

impl Parser {
    pub closed spec fn input(&self) -> Seq<Lexeme> {
        lexemes(self.tokens@)
    }

    pub closed spec fn position(&self) -> int {
        self.cur_pos as int
    }

    pub closed spec fn wf(&self) -> bool {
        self.cur_pos <= self.tokens@.len()
    }

    /// A parser at the first of `tokens`.
    pub fn new(tokens: Vec<Token>) -> (r: Parser)
        ensures
            r.wf(),
            r.input() == lexemes(tokens@),
            r.position() == 0,
    {
        Parser { cur_pos: 0, tokens }
    }

    fn next(&mut self)
        requires
            old(self).wf(),
        ensures
            final(self).wf(),
            final(self).tokens == old(self).tokens,
            final(self).cur_pos == step(old(self).input(), old(self).cur_pos as int),
    {
        if self.cur_pos < self.tokens.len() {
            self.cur_pos += 1;
        }
    }

    fn factor(&mut self) -> (r: Node)
        requires
            old(self).wf(),
        ensures
            final(self).wf(),
            final(self).tokens == old(self).tokens,
            old(self).cur_pos <= final(self).cur_pos,
            (r.tree(), final(self).position()) == parse_factor(old(self).input(), old(self).position()),
        decreases old(self).tokens@.len() - old(self).cur_pos, 0nat,
    {
        let ghost t = self.input();
        let i = self.cur_pos;
        if i >= self.tokens.len() {
            return Node::Number(zero_text());
        }
        assert(t[i as int] == self.tokens@[i as int]@);
        match &self.tokens[i] {
            Token::Number(n) => {
                let n = n.clone();
                self.cur_pos = i + 1;
                Node::Number(n)
            },
            Token::String(x) => {
                let x = x.clone();
                self.cur_pos = i + 1;
                Node::String(x)
            },
            Token::Ident(x) => {
                let x = x.clone();
                let j = i + 1;
                self.cur_pos = j;
                if j < self.tokens.len() {
                    assert(t[j as int] == self.tokens@[j as int]@);
                    match &self.tokens[j] {
                        Token::Colon => {
                            let k = j + 1;
                            self.cur_pos = k;
                            if k < self.tokens.len() {
                                assert(t[k as int] == self.tokens@[k as int]@);
                                match &self.tokens[k] {
                                    Token::Ident(y) => {
                                        let y = y.clone();
                                        self.cur_pos = k + 1;
                                        return Node::Range(x, y);
                                    },
                                    _ => {},
                                }
                            }
                            Node::Ident(x)
                        },
                        Token::LParen => {
                            self.cur_pos = j + 1;
                            let empty: Vec<Node> = Vec::new();
                            assert(trees(empty@) =~= Seq::<Tree>::empty());
                            let args = self.args(empty);
                            Node::Call(x, args)
                        },
                        _ => Node::Ident(x),
                    }
                } else {
                    Node::Ident(x)
                }
            },
            Token::LParen => {
                self.cur_pos = i + 1;
                let e = self.expr();
                self.next();
                e
            },
            _ => Node::Number(zero_text()),
        }
    }

    fn term(&mut self) -> (r: Node)
        requires
            old(self).wf(),
        ensures
            final(self).wf(),
            final(self).tokens == old(self).tokens,
            old(self).cur_pos <= final(self).cur_pos,
            (r.tree(), final(self).position()) == parse_term(old(self).input(), old(self).position()),
        decreases old(self).tokens@.len() - old(self).cur_pos, 2nat,
    {
        let ghost t = self.input();
        let ghost i0 = self.position();
        let ghost toks = self.tokens;
        let mut left = self.factor();
        let ghost j0 = self.position();
        assert(parse_term(t, i0) == parse_term_rest(t, j0, left.tree()));
        loop
            invariant
                self.wf(),
                self.tokens == toks,
                toks == old(self).tokens,
                self.input() == t,
                self.tokens@.len() == t.len(),
                i0 <= self.cur_pos,
                i0 == old(self).cur_pos,
                parse_term(t, i0) == parse_term_rest(t, self.position(), left.tree()),
            ensures
                parse_term_rest(t, self.position(), left.tree()) == (left.tree(), self.position()),
            decreases self.tokens@.len() - self.cur_pos,
        {
            let i = self.cur_pos;
            if i >= self.tokens.len() {
                break;
            }
            assert(t[i as int] == self.tokens@[i as int]@);
            let op = match &self.tokens[i] {
                Token::Star => Operation::Mul,
                Token::Div => Operation::Div,
                _ => {
                    break;
                },
            };
            self.cur_pos = i + 1;
            let right = self.factor();
            left = Node::BinOp(Box::new(left), op, Box::new(right));
        }
        left
    }

    fn expr(&mut self) -> (r: Node)
        requires
            old(self).wf(),
        ensures
            final(self).wf(),
            final(self).tokens == old(self).tokens,
            old(self).cur_pos <= final(self).cur_pos,
            (r.tree(), final(self).position()) == parse_expr(old(self).input(), old(self).position()),
        decreases old(self).tokens@.len() - old(self).cur_pos, 4nat,
    {
        let ghost t = self.input();
        let ghost i0 = self.position();
        let ghost toks = self.tokens;
        let mut left = self.term();
        let ghost j0 = self.position();
        assert(parse_expr(t, i0) == parse_expr_rest(t, j0, left.tree()));
        loop
            invariant
                self.wf(),
                self.tokens == toks,
                toks == old(self).tokens,
                self.input() == t,
                self.tokens@.len() == t.len(),
                i0 <= self.cur_pos,
                i0 == old(self).cur_pos,
                parse_expr(t, i0) == parse_expr_rest(t, self.position(), left.tree()),
            ensures
                parse_expr_rest(t, self.position(), left.tree()) == (left.tree(), self.position()),
            decreases self.tokens@.len() - self.cur_pos,
        {
            let i = self.cur_pos;
            if i >= self.tokens.len() {
                break;
            }
            assert(t[i as int] == self.tokens@[i as int]@);
            let op = match &self.tokens[i] {
                Token::Plus => Operation::Plus,
                Token::Minus => Operation::Minus,
                _ => {
                    break;
                },
            };
            self.cur_pos = i + 1;
            let right = self.term();
            left = Node::BinOp(Box::new(left), op, Box::new(right));
        }
        left
    }

    fn args(&mut self, acc: Vec<Node>) -> (r: Vec<Node>)
        requires
            old(self).wf(),
        ensures
            final(self).wf(),
            final(self).tokens == old(self).tokens,
            old(self).cur_pos <= final(self).cur_pos,
            (trees(r@), final(self).position()) == parse_args(old(self).input(), old(self).position(), trees(acc@)),
        decreases old(self).tokens@.len() - old(self).cur_pos, 5nat,
    {
        let ghost t = self.input();
        let i = self.cur_pos;
        let mut acc = acc;
        if i < self.tokens.len() {
            assert(t[i as int] == self.tokens@[i as int]@);
            match &self.tokens[i] {
                Token::RParen => {
                    self.cur_pos = i + 1;
                    return acc;
                },
                _ => {},
            }
        }
        let e = self.expr();
        let j = self.cur_pos;
        let ghost before = acc@;
        let ghost et = e.tree();
        acc.push(e);
        proof {
            assert(trees(acc@) =~= trees(before).push(et));
        }
        if j < self.tokens.len() {
            assert(t[j as int] == self.tokens@[j as int]@);
            match &self.tokens[j] {
                Token::Comma => {
                    self.cur_pos = j + 1;
                    return self.args(acc);
                },
                _ => {},
            }
        }
        self.next();
        acc
    }

    /// Parses an expression from the current token (see `parse_expr`).
    pub fn build_tree(&mut self) -> (r: Node)
        requires
            old(self).wf(),
        ensures
            final(self).wf(),
            (r.tree(), final(self).position()) == parse_expr(old(self).input(), old(self).position()),
    {
        self.expr()
    }
}

fn zero_text() -> (r: String)
    ensures
        r@ == seq!['0'],
{
    let z = vec!['0'];
    assert(z@ =~= seq!['0']);
    string_of(&z)
}

/// The tokens of a formula's source (see `lexemes_from`).
pub fn get_tokens(equation: &str) -> (r: Vec<Token>)
    ensures
        lexemes(r@) == lexemes_from(equation@, 0),
{
    let mut lexer = Lexer::new(equation);
    lexer.tokenize()
}

/// The tree of a formula's source: its tokens parsed as an expression.
pub fn parse_formula(equation: &str) -> (r: Node)
    ensures
        r.tree() == parse_expr(lexemes_from(equation@, 0), 0).0,
{
    let toks = get_tokens(equation);
    let mut parser = Parser::new(toks);
    parser.build_tree()
}

/// How many evaluations one top-level evaluation may start before it fails.
pub const RECURSION_LIMIT: u64 = 1000;

/// Counts one more evaluation on `counter` (which stops at `u64::MAX`), and fails with
/// `RecursionLimit` once the count is over `RECURSION_LIMIT`.
pub fn enter_evaluation(counter: &mut u64) -> (r: Result<(), CalculatorError>)
    ensures
        *final(counter) == if *old(counter) < u64::MAX { (*old(counter) + 1) as u64 } else { u64::MAX },
        r is Err <==> *final(counter) > RECURSION_LIMIT,
        r is Err <==> trips(*old(counter)),
        r is Err ==> r == Err::<(), CalculatorError>(CalculatorError::RecursionLimit),
{
    if *counter < u64::MAX {
        *counter = *counter + 1;
    }
    if *counter > RECURSION_LIMIT {
        Err(CalculatorError::RecursionLimit)
    } else {
        Ok(())
    }
}

/// Whether the evaluation counted on a counter that holds `c` fails.
pub open spec fn trips(c: u64) -> bool {
    (if c < u64::MAX { c + 1 } else { c as int }) > RECURSION_LIMIT
}

/// A counter started at 0 holds `k` when the evaluation numbered `k + 1` is counted, so with
/// a fresh counter exactly `RECURSION_LIMIT` evaluations pass and the next one fails.
pub proof fn lemma_guard_trips_after_limit(c: u64)
    ensures
        trips(c) <==> c >= RECURSION_LIMIT,
{
}

/// `s` repeated `k` times.
pub open spec fn repeat(s: Seq<char>, k: nat) -> Seq<char>
    decreases k,
{
    if k == 0 { Seq::empty() } else { repeat(s, (k - 1) as nat) + s }
}

/// `text` repeated `times` times (empty for 0).
pub fn repeat_text(text: &str, times: usize) -> (r: String)
    ensures
        r@ == repeat(text@, times as nat),
{
    let v = chars_of(text);
    let mut out: Vec<char> = Vec::new();
    let mut i: usize = 0;
    while i < times
        invariant
            i <= times,
            v@ == text@,
            out@ == repeat(text@, i as nat),
        decreases times - i,
    {
        extend_chars(&mut out, &v);
        i += 1;
    }
    string_of(&out)
}

/// An operation on two texts: `+` joins them; any other operation is invalid.
pub fn text_operation(op: Operation, left: &str, right: &str) -> (r: Result<String, CalculatorError>)
    ensures
        op == Operation::Plus ==> r is Ok && r.unwrap()@ == left@ + right@,
        op != Operation::Plus ==> r == Err::<String, CalculatorError>(CalculatorError::InvalidBinaryOp(op)),
{
    match op {
        Operation::Plus => {
            let mut joined = left.to_owned();
            push_text(&mut joined, right);
            Ok(joined)
        },
        _ => Err(CalculatorError::InvalidBinaryOp(op)),
    }
}

} // verus!
