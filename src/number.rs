//! Which texts read as a floating-point number, by the grammar that Rust's `f64` parser
//! documents: an optional sign, then `inf`, `infinity` or `nan` in any case, or a decimal
//! mantissa with at most one point and at least one digit, with an optional exponent.
use vstd::prelude::*;
use crate::text::{all_digits, chars_of, is_digit, is_upper};

verus! {

pub open spec fn is_sign(c: char) -> bool {
    c == '+' || c == '-'
}

pub open spec fn lower_char(c: char) -> char {
    if is_upper(c) {
        (c as int + 32) as char
    } else {
        c
    }
}

/// `s` spells `w` (given in lowercase), ignoring ASCII case.
pub open spec fn matches_word(s: Seq<char>, w: Seq<char>) -> bool {
    s.len() == w.len() && forall|i: int| 0 <= i < s.len() ==> lower_char(#[trigger] s[i]) == w[i]
}

pub open spec fn is_mantissa_char(c: char) -> bool {
    is_digit(c) || c == '.'
}

/// Digits with at most one point, and at least one digit.
pub open spec fn is_mantissa(m: Seq<char>) -> bool {
    &&& forall|i: int| 0 <= i < m.len() ==> is_mantissa_char(#[trigger] m[i])
    &&& exists|i: int| 0 <= i < m.len() && is_digit(#[trigger] m[i])
    &&& forall|i: int, j: int| 0 <= i < j < m.len() && #[trigger] m[i] == '.' ==> #[trigger] m[j] != '.'
}

/// `e` or `E`, an optional sign, and at least one digit.
pub open spec fn is_exponent(x: Seq<char>) -> bool {
    &&& x.len() >= 2
    &&& (x[0] == 'e' || x[0] == 'E')
    &&& {
        let d = if is_sign(x[1]) { x.skip(2) } else { x.skip(1) };
        d.len() > 0 && all_digits(d)
    }
}

/// Number of leading digits and points of `s`.
pub open spec fn mantissa_len(s: Seq<char>) -> nat
    decreases s.len(),
{
    if s.len() > 0 && is_mantissa_char(s[0]) {
        1 + mantissa_len(s.drop_first())
    } else {
        0
    }
}

pub open spec fn is_decimal_number(t: Seq<char>) -> bool {
    let k = mantissa_len(t) as int;
    is_mantissa(t.take(k)) && (k == t.len() || is_exponent(t.skip(k)))
}

/// Whether `s` reads as a floating-point number.
pub open spec fn is_float_text(s: Seq<char>) -> bool {
    let t = if s.len() > 0 && is_sign(s[0]) { s.drop_first() } else { s };
    matches_word(t, seq!['i', 'n', 'f']) || matches_word(t, seq!['i', 'n', 'f', 'i', 'n', 'i', 't', 'y'])
        || matches_word(t, seq!['n', 'a', 'n']) || is_decimal_number(t)
}

proof fn lemma_mantissa_len(s: Seq<char>, k: int)
    requires
        0 <= k <= s.len(),
        forall|j: int| 0 <= j < k ==> is_mantissa_char(#[trigger] s[j]),
        k == s.len() || !is_mantissa_char(s[k]),
    ensures
        mantissa_len(s) == k,
    decreases k,
{
    if k > 0 {
        let t = s.drop_first();
        assert forall|j: int| 0 <= j < k - 1 implies is_mantissa_char(#[trigger] t[j]) by {
            assert(t[j] == s[j + 1]);
        }
        if k < s.len() {
            assert(t[k - 1] == s[k]);
        }
        lemma_mantissa_len(t, k - 1);
    }
}

fn sub_chars(v: &Vec<char>, from: usize, to: usize) -> (r: Vec<char>)
    requires
        from <= to <= v.len(),
    ensures
        r@ == v@.subrange(from as int, to as int),
{
    let mut r: Vec<char> = Vec::new();
    let mut i = from;
    while i < to
        invariant
            from <= i <= to <= v.len(),
            r@ == v@.subrange(from as int, i as int),
        decreases to - i,
    {
        r.push(v[i]);
        i += 1;
        assert(r@ =~= v@.subrange(from as int, i as int));
    }
    r
}

fn lower_of(c: char) -> (r: char)
    ensures
        r == lower_char(c),
{
    if 'A' <= c && c <= 'Z' {
        ((c as u8) + 32) as char
    } else {
        c
    }
}

fn word_matches(s: &Vec<char>, w: &Vec<char>) -> (r: bool)
    ensures
        r == matches_word(s@, w@),
{
    if s.len() != w.len() {
        return false;
    }
    let mut i: usize = 0;
    while i < s.len()
        invariant
            s.len() == w.len(),
            i <= s.len(),
            forall|j: int| 0 <= j < i ==> lower_char(#[trigger] s@[j]) == w@[j],
        decreases s.len() - i,
    {
        if lower_of(s[i]) != w[i] {
            return false;
        }
        i += 1;
    }
    true
}

fn mantissa_ok(m: &Vec<char>) -> (r: bool)
    ensures
        r == is_mantissa(m@),
{
    let mut i: usize = 0;
    let mut seen_digit = false;
    let mut seen_dot = false;
    while i < m.len()
        invariant
            i <= m.len(),
            forall|j: int| 0 <= j < i ==> is_mantissa_char(#[trigger] m@[j]),
            seen_digit <==> exists|j: int| 0 <= j < i && is_digit(#[trigger] m@[j]),
            seen_dot <==> exists|j: int| 0 <= j < i && #[trigger] m@[j] == '.',
            forall|a: int, b: int| 0 <= a < b < i && #[trigger] m@[a] == '.' ==> #[trigger] m@[b] != '.',
        decreases m.len() - i,
    {
        let c = m[i];
        if c == '.' {
            if seen_dot {
                proof {
                    let a = choose|j: int| 0 <= j < i && #[trigger] m@[j] == '.';
                    assert(m@[a] == '.' && m@[i as int] == '.');
                }
                return false;
            }
            seen_dot = true;
        } else if '0' <= c && c <= '9' {
            seen_digit = true;
        } else {
            proof {
                assert(!is_mantissa_char(m@[i as int]));
            }
            return false;
        }
        i += 1;
    }
    seen_digit
}

fn exponent_ok(x: &Vec<char>) -> (r: bool)
    ensures
        r == is_exponent(x@),
{
    if x.len() < 2 || !(x[0] == 'e' || x[0] == 'E') {
        return false;
    }
    let start: usize = if x[1] == '+' || x[1] == '-' { 2 } else { 1 };
    if start >= x.len() {
        return false;
    }
    let mut i = start;
    while i < x.len()
        invariant
            start <= i <= x.len(),
            start == (if is_sign(x@[1]) { 2int } else { 1int }),
            forall|j: int| start <= j < i ==> is_digit(#[trigger] x@[j]),
        decreases x.len() - i,
    {
        if !('0' <= x[i] && x[i] <= '9') {
            proof {
                let d = x@.skip(start as int);
                assert(d[i - start] == x@[i as int]);
            }
            return false;
        }
        i += 1;
    }
    proof {
        let d = x@.skip(start as int);
        assert forall|j: int| 0 <= j < d.len() implies is_digit(#[trigger] d[j]) by {
            assert(d[j] == x@[start + j]);
        }
    }
    true
}

fn decimal_number_ok(t: &Vec<char>) -> (r: bool)
    ensures
        r == is_decimal_number(t@),
{
    let mut k: usize = 0;
    while k < t.len() && (t[k] == '.' || ('0' <= t[k] && t[k] <= '9'))
        invariant
            k <= t.len(),
            forall|j: int| 0 <= j < k ==> is_mantissa_char(#[trigger] t@[j]),
        decreases t.len() - k,
    {
        k += 1;
    }
    proof {
        lemma_mantissa_len(t@, k as int);
    }
    let m = sub_chars(t, 0, k);
    if !mantissa_ok(&m) {
        return false;
    }
    if k == t.len() {
        return true;
    }
    let x = sub_chars(t, k, t.len());
    exponent_ok(&x)
}

/// Whether `text` reads as a floating-point number.
pub fn parses_as_number(text: &str) -> (r: bool)
    ensures
        r == is_float_text(text@),
{
    let s = chars_of(text);
    let t = if s.len() > 0 && (s[0] == '+' || s[0] == '-') { sub_chars(&s, 1, s.len()) } else { sub_chars(&s, 0, s.len()) };
    proof {
        if s@.len() > 0 && is_sign(s@[0]) {
            assert(t@ =~= s@.drop_first());
        } else {
            assert(t@ =~= s@);
        }
    }
    word_matches(&t, &vec!['i', 'n', 'f']) || word_matches(&t, &vec!['i', 'n', 'f', 'i', 'n', 'i', 't', 'y'])
        || word_matches(&t, &vec!['n', 'a', 'n']) || decimal_number_ok(&t)
}

} // verus!
