//! Tokens of the sheet text format: `[`, `]`, `,`, quoted text, numbers and parenthesised
//! formulas.
use vstd::prelude::*;
use crate::text::{chars_of, is_digit, string_of};

verus! {

#[derive(Debug, Clone)]
pub enum Token {
    LBracket,
    RBracket,
    String(String),
    Expr(String),
    /// The text of a number: digits with at most one point.
    Number(String),
    Unknown(char),
    Comma,
}

pub enum TokenView {
    LBracket,
    RBracket,
    Str(Seq<char>),
    Expr(Seq<char>),
    Number(Seq<char>),
    Unknown(char),
    Comma,
}

impl View for Token {
    type V = TokenView;

    open spec fn view(&self) -> TokenView {
        match self {
            Token::LBracket => TokenView::LBracket,
            Token::RBracket => TokenView::RBracket,
            Token::String(s) => TokenView::Str(s@),
            Token::Expr(s) => TokenView::Expr(s@),
            Token::Number(s) => TokenView::Number(s@),
            Token::Unknown(c) => TokenView::Unknown(*c),
            Token::Comma => TokenView::Comma,
        }
    }
}

pub open spec fn token_views(t: Seq<Token>) -> Seq<TokenView> {
    t.map_values(|k: Token| k@)
}

/// Index of the first `"` at or after `i`, or the length of `s`.
pub open spec fn quote_end(s: Seq<char>, i: int) -> int
    decreases s.len() - i,
{
    if i < 0 || i >= s.len() {
        s.len() as int
    } else if s[i] == '"' {
        i
    } else {
        quote_end(s, i + 1)
    }
}

/// Index where a number that continues at `i` stops: digits, and one point unless `dot`
/// says one was already seen.
pub open spec fn number_end(s: Seq<char>, i: int, dot: bool) -> int
    decreases s.len() - i,
{
    if i < 0 || i >= s.len() {
        s.len() as int
    } else if s[i] == '.' && !dot {
        number_end(s, i + 1, true)
    } else if is_digit(s[i]) {
        number_end(s, i + 1, dot)
    } else {
        i
    }
}

/// Index of the `)` that brings the nesting `depth` at `i` down to zero, or the length of
/// `s`. Quotes are not taken into account.
pub open spec fn expr_end(s: Seq<char>, i: int, depth: int) -> int
    decreases s.len() - i,
{
    if i < 0 || i >= s.len() {
        s.len() as int
    } else if s[i] == ')' {
        if depth == 1 { i } else { expr_end(s, i + 1, depth - 1) }
    } else if s[i] == '(' {
        expr_end(s, i + 1, depth + 1)
    } else {
        expr_end(s, i + 1, depth)
    }
}

pub open spec fn is_blank(c: char) -> bool {
    c == ' ' || c == '\n' || c == '\t' || c == '\r'
}

/// Where scanning goes on after a token that ends at `e` (clamped to move forward and to
/// stay within `s`).
pub open spec fn resume(s: Seq<char>, i: int, e: int) -> int {
    if e <= i {
        i + 1
    } else if e > s.len() {
        s.len() as int
    } else {
        e
    }
}

/// The token that starts at index `i` of `s` (none for a blank), and where scanning goes on.
pub open spec fn token_at(s: Seq<char>, i: int) -> (Option<TokenView>, int) {
    let c = s[i];
    if c == ']' {
        (Some(TokenView::RBracket), i + 1)
    } else if c == '[' {
        (Some(TokenView::LBracket), i + 1)
    } else if c == ',' {
        (Some(TokenView::Comma), i + 1)
    } else if c == '(' {
        let e = expr_end(s, i + 1, 1);
        (Some(TokenView::Expr(s.subrange(i + 1, e))), resume(s, i, e + 1))
    } else if c == '"' {
        let e = quote_end(s, i + 1);
        (Some(TokenView::Str(s.subrange(i + 1, e))), resume(s, i, e + 1))
    } else if is_blank(c) {
        (None, i + 1)
    } else if is_digit(c) {
        let e = number_end(s, i + 1, false);
        (Some(TokenView::Number(s.subrange(i, e))), resume(s, i, e))
    } else {
        (Some(TokenView::Unknown(c)), i + 1)
    }
}

/// The tokens of `s` from index `i` on.
pub open spec fn tokens_from(s: Seq<char>, i: int) -> Seq<TokenView>
    decreases s.len() - i,
{
    if i < 0 || i >= s.len() {
        Seq::empty()
    } else {
        let (t, j) = token_at(s, i);
        if j <= i {
            Seq::empty()
        } else {
            match t {
                Some(k) => seq![k] + tokens_from(s, j),
                None => tokens_from(s, j),
            }
        }
    }
}

proof fn lemma_quote_end_bounds(s: Seq<char>, i: int)
    requires
        0 <= i <= s.len(),
    ensures
        i <= quote_end(s, i) <= s.len(),
    decreases s.len() - i,
{
    if i < s.len() && s[i] != '"' {
        lemma_quote_end_bounds(s, i + 1);
    }
}

proof fn lemma_number_end_bounds(s: Seq<char>, i: int, dot: bool)
    requires
        0 <= i <= s.len(),
    ensures
        i <= number_end(s, i, dot) <= s.len(),
    decreases s.len() - i,
{
    if i < s.len() {
        if s[i] == '.' && !dot {
            lemma_number_end_bounds(s, i + 1, true);
        } else if is_digit(s[i]) {
            lemma_number_end_bounds(s, i + 1, dot);
        }
    }
}

proof fn lemma_expr_end_bounds(s: Seq<char>, i: int, depth: int)
    requires
        0 <= i <= s.len(),
    ensures
        i <= expr_end(s, i, depth) <= s.len(),
    decreases s.len() - i,
{
    if i < s.len() {
        if s[i] == ')' {
            if depth != 1 {
                lemma_expr_end_bounds(s, i + 1, depth - 1);
            }
        } else if s[i] == '(' {
            lemma_expr_end_bounds(s, i + 1, depth + 1);
        } else {
            lemma_expr_end_bounds(s, i + 1, depth);
        }
    }
}

proof fn lemma_push_views(t: Seq<Token>, k: Token)
    ensures
        token_views(t.push(k)) == token_views(t) + seq![k@],
{
    assert(token_views(t.push(k)) =~= token_views(t) + seq![k@]);
}

proof fn lemma_concat_assoc(a: Seq<TokenView>, b: Seq<TokenView>, c: Seq<TokenView>)
    ensures
        a + (b + c) == (a + b) + c,
{
    assert(a + (b + c) =~= (a + b) + c);
}

fn sub_string(s: &Vec<char>, from: usize, to: usize) -> (r: String)
    requires
        from <= to <= s.len(),
    ensures
        r@ == s@.subrange(from as int, to as int),
{
    let mut v: Vec<char> = Vec::new();
    let mut k = from;
    while k < to
        invariant
            from <= k <= to <= s.len(),
            v@ == s@.subrange(from as int, k as int),
        decreases to - k,
    {
        v.push(s[k]);
        k += 1;
        assert(v@ =~= s@.subrange(from as int, k as int));
    }
    string_of(&v)
}

/// Splits sheet text into tokens. Unknown characters become `Unknown` tokens; blanks are
/// skipped; an unterminated string or formula runs to the end of the text.
pub fn parse(contents: &str) -> (r: Vec<Token>)
    ensures
        token_views(r@) == tokens_from(contents@, 0),
{
    let s = chars_of(contents);
    let n = s.len();
    let mut tokens: Vec<Token> = Vec::new();
    let mut i: usize = 0;
    while i < n
        invariant
            n == s@.len(),
            s@ == contents@,
            i <= n,
            tokens_from(s@, 0) == token_views(tokens@) + tokens_from(s@, i as int),
        decreases n - i,
    {
        let ghost before = token_views(tokens@);
        let c = s[i];
        if c == ' ' || c == '\n' || c == '\t' || c == '\r' {
            assert(token_at(s@, i as int) == (None::<TokenView>, i + 1));
            assert(tokens_from(s@, i as int) == tokens_from(s@, i + 1));
            i += 1;
            continue;
        }
        let (tok, next): (Token, usize) = if c == ']' {
            assert(token_at(s@, i as int) == (Some(TokenView::RBracket), i + 1));
            (Token::RBracket, i + 1)
        } else if c == '[' {
            assert(token_at(s@, i as int) == (Some(TokenView::LBracket), i + 1));
            (Token::LBracket, i + 1)
        } else if c == ',' {
            assert(token_at(s@, i as int) == (Some(TokenView::Comma), i + 1));
            (Token::Comma, i + 1)
        } else if c == '(' {
            let mut k = i + 1;
            let mut depth: usize = 1;
            proof {
                lemma_expr_end_bounds(s@, i + 1, 1);
            }
            while k < n && !(s[k] == ')' && depth == 1)
                invariant
                    n == s@.len(),
                    s@ == contents@,
                    i < k <= n,
                    before == token_views(tokens@),
                    tokens_from(s@, 0) == before + tokens_from(s@, i as int),
                    1 <= depth <= k - i,
                    expr_end(s@, i + 1, 1) == expr_end(s@, k as int, depth as int),
                decreases n - k,
            {
                if s[k] == ')' {
                    depth = depth - 1;
                } else if s[k] == '(' {
                    depth = depth + 1;
                }
                k += 1;
            }
            assert(expr_end(s@, i + 1, 1) == k);
            let t = Token::Expr(sub_string(&s, i + 1, k));
            let nx = if k < n { k + 1 } else { n };
            assert(resume(s@, i as int, k + 1) == nx);
            assert(token_at(s@, i as int) == (Some(t@), nx as int));
            (t, nx)
        } else if c == '"' {
            let mut k = i + 1;
            while k < n && s[k] != '"'
                invariant
                    n == s@.len(),
                    s@ == contents@,
                    i < k <= n,
                    before == token_views(tokens@),
                    tokens_from(s@, 0) == before + tokens_from(s@, i as int),
                    quote_end(s@, i + 1) == quote_end(s@, k as int),
                decreases n - k,
            {
                k += 1;
            }
            assert(quote_end(s@, i + 1) == k);
            let t = Token::String(sub_string(&s, i + 1, k));
            let nx = if k < n { k + 1 } else { n };
            assert(resume(s@, i as int, k + 1) == nx);
            assert(token_at(s@, i as int) == (Some(t@), nx as int));
            (t, nx)
        } else if '0' <= c && c <= '9' {
            let mut k = i + 1;
            let mut dot = false;
            while k < n && ((s[k] == '.' && !dot) || ('0' <= s[k] && s[k] <= '9'))
                invariant
                    n == s@.len(),
                    s@ == contents@,
                    i < k <= n,
                    before == token_views(tokens@),
                    tokens_from(s@, 0) == before + tokens_from(s@, i as int),
                    number_end(s@, i + 1, false) == number_end(s@, k as int, dot),
                decreases n - k,
            {
                if s[k] == '.' {
                    dot = true;
                }
                k += 1;
            }
            assert(number_end(s@, i + 1, false) == k);
            let t = Token::Number(sub_string(&s, i, k));
            assert(resume(s@, i as int, k as int) == k);
            assert(token_at(s@, i as int) == (Some(t@), k as int));
            (t, k)
        } else {
            assert(token_at(s@, i as int) == (Some(TokenView::Unknown(c)), i + 1));
            (Token::Unknown(c), i + 1)
        };
        proof {
            lemma_push_views(tokens@, tok);
            assert(token_at(s@, i as int) == (Some(tok@), next as int));
            assert(seq![tok@] + tokens_from(s@, next as int) == tokens_from(s@, i as int));
            lemma_concat_assoc(before, seq![tok@], tokens_from(s@, next as int));
        }
        tokens.push(tok);
        i = next;
    }
    tokens
}

} // verus!
