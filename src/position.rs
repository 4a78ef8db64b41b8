//! Grid positions and their human-readable `<letters><digits>` form.
use vstd::prelude::*;
use crate::text::{
    all_digits, chars_of, decimal_text, decimal_value, extend_chars, is_digit,
    is_letter, is_lower, is_upper, lemma_decimal_value_grows, string_of, usize_text,
};

verus! {

/// A zero-based grid coordinate.
#[derive(Debug, Clone, Copy, PartialEq, Eq, Structural)]
pub struct Position {
    pub row: usize,
    pub col: usize,
}

/// The lowercase form of an uppercase ASCII letter.
pub fn to_lower(ch: char) -> (r: char)
    requires
        is_upper(ch),
    ensures
        r as int == ch as int + 32,
        is_lower(r),
{
    let b = (ch as u8) + 32;
    b as char
}

/// The digit value of a letter, case-insensitive: `a` and `A` are 0, `z` and `Z` are 25.
pub open spec fn letter_value(c: char) -> int {
    if is_upper(c) {
        c as int - 'A' as int
    } else {
        c as int - 'a' as int
    }
}

pub open spec fn all_letters(s: Seq<char>) -> bool {
    forall|i: int| 0 <= i < s.len() ==> is_letter(#[trigger] s[i])
}

/// Positional base-26 value of a run of letters, most significant letter first.
pub open spec fn base26_value(s: Seq<char>) -> int
    decreases s.len(),
{
    if s.len() == 0 {
        0
    } else {
        base26_value(s.drop_last()) * 26 + letter_value(s.last())
    }
}

/// Bijective base-26 column letters of `n` (1 is "A", 26 is "Z", 27 is "AA"; 0 is empty).
pub open spec fn column_letters(n: nat) -> Seq<char>
    decreases n,
{
    if n == 0 {
        Seq::empty()
    } else {
        let m = ((n - 1) as nat) % 26;
        column_letters(((n - m) as nat) / 26).push(('A' as nat + m) as char)
    }
}

/// Number of leading letters of `s`.
pub open spec fn leading_letters(s: Seq<char>) -> nat
    decreases s.len(),
{
    if s.len() > 0 && is_letter(s[0]) {
        1 + leading_letters(s.drop_first())
    } else {
        0
    }
}

/// The position that A1-style text denotes: leading letters give the column in positional
/// base 26, and the digits that follow give the one-based row. `None` when the text is not
/// letters followed by at least one digit, when the row number is zero, or when a coordinate
/// does not fit in `usize`.
pub open spec fn position_of(s: Seq<char>) -> Option<Position> {
    let k = leading_letters(s) as int;
    let letters = s.take(k);
    let digits = s.skip(k);
    if digits.len() > 0 && all_digits(digits) && 1 <= decimal_value(digits) <= usize::MAX
        && base26_value(letters) <= usize::MAX {
        Some(Position { row: (decimal_value(digits) - 1) as usize, col: base26_value(letters) as usize })
    } else {
        None
    }
}

proof fn lemma_base26_nonneg(s: Seq<char>)
    requires
        all_letters(s),
    ensures
        base26_value(s) >= 0,
    decreases s.len(),
{
    if s.len() > 0 {
        assert(all_letters(s.drop_last()));
        lemma_base26_nonneg(s.drop_last());
        assert(is_letter(s[s.len() - 1]));
    }
}

proof fn lemma_base26_grows(s: Seq<char>, i: int, j: int)
    requires
        all_letters(s),
        0 <= i <= j <= s.len(),
    ensures
        0 <= base26_value(s.take(i)) <= base26_value(s.take(j)),
    decreases j,
{
    assert(all_letters(s.take(i)));
    lemma_base26_nonneg(s.take(i));
    if j > i {
        lemma_base26_grows(s, i, j - 1);
        assert(s.take(j).drop_last() == s.take(j - 1));
        assert(is_letter(s[j - 1]));
    }
}

proof fn lemma_leading_letters(s: Seq<char>, k: int)
    requires
        0 <= k <= s.len(),
        forall|j: int| 0 <= j < k ==> is_letter(#[trigger] s[j]),
        k == s.len() || !is_letter(s[k]),
    ensures
        leading_letters(s) == k,
    decreases k,
{
    if k > 0 {
        let t = s.drop_first();
        assert forall|j: int| 0 <= j < k - 1 implies is_letter(#[trigger] t[j]) by {
            assert(t[j] == s[j + 1]);
        }
        if k < s.len() {
            assert(t[k - 1] == s[k]);
        }
        lemma_leading_letters(t, k - 1);
    }
}

/// Decodes letters as a positional base-26 number, case-insensitive (`a` is 0).
pub fn base_26_to_10(n: String) -> (r: usize)
    requires
        all_letters(n@),
        base26_value(n@) <= usize::MAX,
    ensures
        r == base26_value(n@),
{
    let chars = chars_of(n.as_str());
    let mut ans: usize = 0;
    let mut i: usize = 0;
    while i < chars.len()
        invariant
            chars@ == n@,
            i <= chars.len(),
            ans == base26_value(chars@.take(i as int)),
            all_letters(n@),
            base26_value(n@) <= usize::MAX,
        decreases chars.len() - i,
    {
        let c = chars[i];
        proof {
            lemma_base26_grows(chars@, i + 1, chars@.len() as int);
            assert(chars@.take(chars@.len() as int) == chars@);
            assert(chars@.take(i + 1).drop_last() == chars@.take(i as int));
            assert(is_letter(chars@[i as int]));
        }
        let d: usize = if 'A' <= c && c <= 'Z' {
            (c as u32 - 'A' as u32) as usize
        } else {
            (c as u32 - 'a' as u32) as usize
        };
        ans = ans * 26 + d;
        i += 1;
    }
    assert(chars@.take(chars@.len() as int) == chars@);
    ans
}

/// Bijective base-26 column letters: 1 is "A", 26 is "Z", 27 is "AA"; 0 gives "".
pub fn base_10_to_col_num(n: usize) -> (r: String)
    ensures
        r@ == column_letters(n as nat),
{
    let letters = col_letters(n);
    string_of(&letters)
}

fn col_letters(n: usize) -> (r: Vec<char>)
    ensures
        r@ == column_letters(n as nat),
    decreases n,
{
    if n == 0 {
        Vec::new()
    } else {
        let m = (n - 1) % 26;
        let mut v = col_letters((n - m) / 26);
        v.push(((m as u8) + 65) as char);
        v
    }
}

/// Parses A1-style text (`B12`, `b12`) into a zero-based position.
pub fn parse_position(text: &str) -> (r: Option<Position>)
    ensures
        r == position_of(text@),
{
    let s = chars_of(text);
    let n = s.len();
    // leading letters, as a base-26 value with overflow detection
    let mut k: usize = 0;
    let mut col: usize = 0;
    let mut col_fits = true;
    while k < n && (('a' <= s[k] && s[k] <= 'z') || ('A' <= s[k] && s[k] <= 'Z'))
        invariant
            s@ == text@,
            n == s.len(),
            k <= n,
            forall|j: int| 0 <= j < k ==> is_letter(#[trigger] s@[j]),
            col_fits ==> col == base26_value(s@.take(k as int)),
            !col_fits ==> base26_value(s@.take(k as int)) > usize::MAX,
        decreases n - k,
    {
        proof {
            assert(s@.take(k + 1).drop_last() == s@.take(k as int));
            assert(all_letters(s@.take(k + 1)));
            lemma_base26_grows(s@.take(k + 1), k as int, k + 1);
            assert(s@.take(k + 1).take(k as int) == s@.take(k as int));
            assert(s@.take(k + 1).take(k + 1) == s@.take(k + 1));
        }
        let c = s[k];
        let d: usize = if 'A' <= c && c <= 'Z' {
            (c as u32 - 'A' as u32) as usize
        } else {
            (c as u32 - 'a' as u32) as usize
        };
        if col_fits {
            match col.checked_mul(26) {
                Some(m) => match m.checked_add(d) {
                    Some(v) => {
                        col = v;
                    },
                    None => {
                        col_fits = false;
                    },
                },
                None => {
                    col_fits = false;
                },
            }
        }
        k += 1;
    }
    proof {
        lemma_leading_letters(s@, k as int);
    }
    if k == n {
        return None;
    }
    // trailing digits, as a decimal value with overflow detection
    let ghost digits = s@.skip(k as int);
    let mut i: usize = k;
    let mut row: usize = 0;
    let mut row_fits = true;
    while i < n
        invariant
            s@ == text@,
            n == s.len(),
            k <= i <= n,
            digits == s@.skip(k as int),
            leading_letters(s@) == k,
            col_fits ==> col == base26_value(s@.take(k as int)),
            !col_fits ==> base26_value(s@.take(k as int)) > usize::MAX,
            forall|j: int| k <= j < i ==> is_digit(#[trigger] s@[j]),
            row_fits ==> row == decimal_value(digits.take(i - k)),
            !row_fits ==> decimal_value(digits.take(i - k)) > usize::MAX,
        decreases n - i,
    {
        let c = s[i];
        if !('0' <= c && c <= '9') {
            proof {
                assert(!is_digit(digits[i - k]));
                assert(!all_digits(digits));
                assert(leading_letters(text@) == k);
            }
            return None;
        }
        proof {
            let p = digits.take(i - k + 1);
            assert(p.drop_last() == digits.take(i - k));
            assert(all_digits(p)) by {
                assert forall|j: int| 0 <= j < p.len() implies is_digit(#[trigger] p[j]) by {
                    assert(p[j] == s@[k + j]);
                }
            }
            lemma_decimal_value_grows(p, i - k, i - k + 1);
            assert(p.take(i - k) == digits.take(i - k));
            assert(p.take(i - k + 1) == p);
        }
        let d: usize = (c as u32 - '0' as u32) as usize;
        if row_fits {
            match row.checked_mul(10) {
                Some(m) => match m.checked_add(d) {
                    Some(v) => {
                        row = v;
                    },
                    None => {
                        row_fits = false;
                    },
                },
                None => {
                    row_fits = false;
                },
            }
        }
        i += 1;
    }
    proof {
        assert(digits.take(n - k) == digits);
        assert(all_digits(digits)) by {
            assert forall|j: int| 0 <= j < digits.len() implies is_digit(#[trigger] digits[j]) by {
                assert(digits[j] == s@[k + j]);
            }
        }
    }
    if !col_fits || !row_fits || row == 0 {
        return None;
    }
    Some(Position { row: row - 1, col })
}

/// The A1-style text of a position: bijective column letters of `col + 1`, then `row + 1`.
/// This is not the inverse of `parse_position`, which reads letters in positional base 26.
pub fn format_position(p: &Position) -> (r: String)
    requires
        p.row < usize::MAX,
        p.col < usize::MAX,
    ensures
        r@ == column_letters((p.col + 1) as nat) + decimal_text((p.row + 1) as nat),
{
    let mut v = col_letters(p.col + 1);
    extend_chars(&mut v, &usize_text(p.row + 1));
    string_of(&v)
}

} // verus!
