//! Numbers as text: reading a decimal integer, telling whether a text writes
//! a floating-point number, and writing an integer in decimal.

use crate::text::{chars_of, single_line};
use vstd::prelude::*;

verus! {

/// Whether `c` is one of the digits `0` to `9`.
pub open spec fn is_digit(c: char) -> bool {
    '0' as int <= c as int <= '9' as int
}

/// Whether every character of `s` is a digit.
pub open spec fn all_digits(s: Seq<char>) -> bool {
    forall|i: int| 0 <= i < s.len() ==> is_digit(#[trigger] s[i])
}

/// The number that a run of digits writes; 0 for the empty run.
pub open spec fn digits_value(s: Seq<char>) -> int
    decreases s.len(),
{
    if s.len() == 0 {
        0
    } else {
        digits_value(s.drop_last()) * 10 + (s.last() as int - '0' as int)
    }
}

/// The integer that `s` writes in decimal: an optional `+` or `-`, then one
/// or more digits and nothing else.
pub open spec fn integer_of(s: Seq<char>) -> Option<int> {
    if s.len() > 0 && (s[0] == '+' || s[0] == '-') {
        let digits = s.drop_first();
        if digits.len() > 0 && all_digits(digits) {
            Some(
                if s[0] == '-' {
                    -digits_value(digits)
                } else {
                    digits_value(digits)
                },
            )
        } else {
            None
        }
    } else if s.len() > 0 && all_digits(s) {
        Some(digits_value(s))
    } else {
        None
    }
}

/// The 32-bit signed integer that `s` writes, if it writes one that fits.
pub open spec fn i32_of(s: Seq<char>) -> Option<i32> {
    match integer_of(s) {
        Some(v) => if i32::MIN <= v <= i32::MAX {
            Some(v as i32)
        } else {
            None
        },
        None => None,
    }
}

/// The first position at or behind `from` that holds no digit, or the length of `s`.
pub open spec fn digits_end(s: Seq<char>, from: int) -> int
    decreases s.len() - from,
{
    if 0 <= from < s.len() && is_digit(s[from]) {
        digits_end(s, from + 1)
    } else {
        from
    }
}

/// `c` with the letters `A` to `Z` turned into `a` to `z`.
pub open spec fn lower(c: char) -> char {
    if 'A' as int <= c as int <= 'Z' as int {
        (c as int + 32) as char
    } else {
        c
    }
}

/// Whether `s` from position `from` on spells `word`, letter case aside.
pub open spec fn spells(s: Seq<char>, from: int, word: Seq<char>) -> bool {
    &&& 0 <= from
    &&& s.len() - from == word.len()
    &&& forall|i: int| 0 <= i < word.len() ==> lower(#[trigger] s[from + i]) == word[i]
}

/// Whether `s` from position `from` on is a decimal number: digits with at
/// most one `.` among them and at least one digit, then optionally `e` or
/// `E`, an optional sign and one or more digits.
pub open spec fn is_number(s: Seq<char>, from: int) -> bool {
    let whole_end = digits_end(s, from);
    let has_point = whole_end < s.len() && s[whole_end] == '.';
    let mantissa_end = if has_point {
        digits_end(s, whole_end + 1)
    } else {
        whole_end
    };
    let mantissa_digits = if has_point {
        mantissa_end - from - 1
    } else {
        mantissa_end - from
    };
    &&& 0 <= from
    &&& mantissa_digits >= 1
    &&& (mantissa_end == s.len() || {
        let signed = mantissa_end + 1 < s.len() && (s[mantissa_end + 1] == '+'
            || s[mantissa_end + 1] == '-');
        let exponent = if signed {
            mantissa_end + 2
        } else {
            mantissa_end + 1
        };
        &&& lower(s[mantissa_end]) == 'e'
        &&& exponent < s.len()
        &&& digits_end(s, exponent) == s.len()
    })
}

/// Whether `s` writes a floating-point number: an optional sign, then `inf`,
/// `infinity` or `nan` in any letter case, or a decimal number.
pub open spec fn is_float_text(s: Seq<char>) -> bool {
    let from: int = if s.len() > 0 && (s[0] == '+' || s[0] == '-') {
        1
    } else {
        0
    };
    spells(s, from, "inf"@) || spells(s, from, "infinity"@) || spells(s, from, "nan"@) || is_number(
        s,
        from,
    )
}

/// The character that writes the digit `d`, for `d` from 0 to 9.
pub open spec fn digit_of(d: int) -> char {
    ('0' as int + d) as char
}

/// The decimal digits of `n`, most significant first, without leading zeros.
pub open spec fn decimal(n: nat) -> Seq<char>
    decreases n,
{
    if n < 10 {
        seq![digit_of(n as int)]
    } else {
        decimal(n / 10).push(digit_of((n % 10) as int))
    }
}

/// The decimal form of `i`, with a leading `-` when it is negative.
pub open spec fn signed_decimal(i: int) -> Seq<char> {
    if i < 0 {
        seq!['-'] + decimal((-i) as nat)
    } else {
        decimal(i as nat)
    }
}

/// What the bounds of a run of digits say of the run.
pub proof fn lemma_digits_end(s: Seq<char>, from: int)
    requires
        0 <= from <= s.len(),
    ensures
        from <= digits_end(s, from) <= s.len(),
        forall|i: int| from <= i < digits_end(s, from) ==> is_digit(#[trigger] s[i]),
        digits_end(s, from) < s.len() ==> !is_digit(s[digits_end(s, from)]),
    decreases s.len() - from,
{
    if from < s.len() && is_digit(s[from]) {
        lemma_digits_end(s, from + 1);
    }
}

/// A run of digits that goes on writes a number that is no smaller.
pub proof fn lemma_digits_value_grows(s: Seq<char>)
    requires
        all_digits(s),
    ensures
        digits_value(s) >= 0,
        s.len() > 0 ==> digits_value(s) >= digits_value(s.drop_last()),
    decreases s.len(),
{
    if s.len() > 0 {
        assert(all_digits(s.drop_last())) by {
            assert forall|i: int| 0 <= i < s.drop_last().len() implies is_digit(
                #[trigger] s.drop_last()[i],
            ) by {
                assert(s.drop_last()[i] == s[i]);
            }
        }
        lemma_digits_value_grows(s.drop_last());
        assert(is_digit(s[s.len() - 1]));
    }
}

/// The digits of a number never hold a line feed, a slash or a double quote.
pub proof fn lemma_decimal_plain(n: nat)
    ensures
        decimal(n).len() > 0,
        forall|i: int| 0 <= i < decimal(n).len() ==> '0' <= #[trigger] decimal(n)[i] <= '9',
    decreases n,
{
    if n >= 10 {
        lemma_decimal_plain(n / 10);
    }
}

fn digit_char(d: u8) -> (c: char)
    requires
        d < 10,
    ensures
        c == digit_of(d as int),
{
    (48u8 + d) as char
}

/// Appends the decimal digits of `n` to `s`.
pub fn push_decimal(s: &mut String, n: u64)
    ensures
        final(s)@ == old(s)@ + decimal(n as nat),
    decreases n,
{
    if n >= 10 {
        push_decimal(s, n / 10);
    }
    s.push(digit_char((n % 10) as u8));
}

/// Appends the decimal form of `i` to `s`.
pub fn push_signed_decimal(s: &mut String, i: i32)
    ensures
        final(s)@ == old(s)@ + signed_decimal(i as int),
{
    if i < 0 {
        s.push('-');
        let magnitude: u64 = (-(i as i64)) as u64;
        push_decimal(s, magnitude);
        assert(old(s)@.push('-') + decimal(magnitude as nat) =~= old(s)@ + (seq!['-'] + decimal(
            magnitude as nat,
        )));
    } else {
        push_decimal(s, i as u64);
    }
}

/// The text of a floating-point number holds no line feed.
pub proof fn lemma_float_text_single_line(s: Seq<char>)
    requires
        is_float_text(s),
    ensures
        single_line(s),
{
    reveal_strlit("inf");
    reveal_strlit("infinity");
    reveal_strlit("nan");
    let from: int = if s.len() > 0 && (s[0] == '+' || s[0] == '-') {
        1
    } else {
        0
    };
    assert forall|i: int| 0 <= i < s.len() implies s[i] != '\n' by {
        if i >= from {
            let k = i - from;
            if spells(s, from, "inf"@) {
                assert(lower(s[from + k]) == "inf"@[k]);
            } else if spells(s, from, "infinity"@) {
                assert(lower(s[from + k]) == "infinity"@[k]);
            } else if spells(s, from, "nan"@) {
                assert(lower(s[from + k]) == "nan"@[k]);
            } else {
                lemma_number_single_line(s, from, i);
            }
        }
    }
}

proof fn lemma_number_single_line(s: Seq<char>, from: int, i: int)
    requires
        is_number(s, from),
        from <= i < s.len(),
    ensures
        s[i] != '\n',
{
    lemma_digits_end(s, from);
    let whole_end = digits_end(s, from);
    let has_point = whole_end < s.len() && s[whole_end] == '.';
    if has_point {
        lemma_digits_end(s, whole_end + 1);
    }
    let mantissa_end = if has_point {
        digits_end(s, whole_end + 1)
    } else {
        whole_end
    };
    if mantissa_end < s.len() {
        let signed = mantissa_end + 1 < s.len() && (s[mantissa_end + 1] == '+'
            || s[mantissa_end + 1] == '-');
        let exponent = if signed {
            mantissa_end + 2
        } else {
            mantissa_end + 1
        };
        lemma_digits_end(s, exponent);
        if i >= exponent {
            assert(is_digit(s[i]));
        }
    }
    if i < whole_end {
        assert(is_digit(s[i]));
    } else if has_point && whole_end < i < mantissa_end {
        assert(is_digit(s[i]));
    }
}

/// Whether `c` is a digit.
pub fn digit(c: char) -> (b: bool)
    ensures
        b == is_digit(c),
{
    '0' <= c && c <= '9'
}

/// The position behind the run of digits that starts at `from`.
pub fn skip_digits(v: &Vec<char>, from: usize) -> (end: usize)
    requires
        from <= v.len(),
    ensures
        end == digits_end(v@, from as int),
        from <= end <= v.len(),
{
    let mut i: usize = from;
    while i < v.len() && digit(v[i])
        invariant
            from <= i <= v.len(),
            digits_end(v@, i as int) == digits_end(v@, from as int),
        decreases v.len() - i,
    {
        i += 1;
    }
    i
}

/// Reads a 32-bit signed integer in decimal.
#[verifier::loop_isolation(false)]
pub fn parse_i32(text: &str) -> (r: Option<i32>)
    ensures
        r == i32_of(text@),
{
    let v = chars_of(text);
    let n = v.len();
    if n == 0 {
        return None;
    }
    let signed = v[0] == '+' || v[0] == '-';
    let negative = v[0] == '-';
    let from: usize = if signed {
        1
    } else {
        0
    };
    if from == n {
        return None;
    }
    let ghost digits = v@.subrange(from as int, n as int);
    assert(signed ==> digits =~= v@.drop_first());
    assert(!signed ==> digits =~= v@);
    let limit: u64 = 0x8000_0001;
    let mut total: u64 = 0;
    let mut i: usize = from;
    assert(v@.subrange(from as int, from as int) =~= Seq::<char>::empty());
    while i < n
        invariant
            from <= i <= n,
            n == v.len(),
            limit == 0x8000_0001,
            digits == v@.subrange(from as int, n as int),
            all_digits(v@.subrange(from as int, i as int)),
            total <= limit,
            total == if digits_value(v@.subrange(from as int, i as int)) < limit {
                digits_value(v@.subrange(from as int, i as int))
            } else {
                limit as int
            },
        decreases n - i,
    {
        let c = v[i];
        if !digit(c) {
            assert(digits[i - from] == c);
            assert(!is_digit(digits[i - from]));
            return None;
        }
        let ghost before = v@.subrange(from as int, i as int);
        let ghost next = v@.subrange(from as int, i + 1);
        assert(next.drop_last() =~= before);
        assert(next.last() == c);
        assert(all_digits(next)) by {
            assert forall|j: int| 0 <= j < next.len() implies is_digit(#[trigger] next[j]) by {
                if j < before.len() {
                    assert(next[j] == before[j]);
                }
            }
        }
        proof {
            lemma_digits_value_grows(before);
        }
        let d: u64 = (c as u32 - '0' as u32) as u64;
        if total < limit {
            let t: u64 = total * 10 + d;
            total = if t < limit {
                t
            } else {
                limit
            };
        }
        i += 1;
    }
    assert(v@.subrange(from as int, n as int) =~= digits);
    if negative {
        if total <= 0x8000_0000 {
            let r: i64 = -(total as i64);
            Some(r as i32)
        } else {
            None
        }
    } else {
        if total <= 0x7fff_ffff {
            Some(total as i32)
        } else {
            None
        }
    }
}

/// `c` with the letters `A` to `Z` turned into `a` to `z`.
pub fn to_lower(c: char) -> (l: char)
    ensures
        l == lower(c),
{
    if 'A' <= c && c <= 'Z' {
        ((c as u8) + 32u8) as char
    } else {
        c
    }
}

/// Whether `v` from `from` on spells `word`, letter case aside.
pub fn spells_word(v: &Vec<char>, from: usize, word: &str) -> (b: bool)
    requires
        from <= v.len(),
    ensures
        b == spells(v@, from as int, word@),
{
    let w = chars_of(word);
    if v.len() - from != w.len() {
        return false;
    }
    let mut i: usize = 0;
    while i < w.len()
        invariant
            i <= w.len(),
            w@ == word@,
            from <= v.len(),
            v.len() - from == w.len(),
            forall|j: int| 0 <= j < i ==> lower(#[trigger] v@[from + j]) == w@[j],
        decreases w.len() - i,
    {
        if to_lower(v[from + i]) != w[i] {
            return false;
        }
        i += 1;
    }
    true
}

/// Whether `v` from `from` on is a decimal number.
pub fn number_at(v: &Vec<char>, from: usize) -> (b: bool)
    requires
        from <= v.len(),
    ensures
        b == is_number(v@, from as int),
{
    let n = v.len();
    let whole_end = skip_digits(v, from);
    let has_point = whole_end < n && v[whole_end] == '.';
    let mantissa_end = if has_point {
        skip_digits(v, whole_end + 1)
    } else {
        whole_end
    };
    let mantissa_digits = if has_point {
        mantissa_end - from - 1
    } else {
        mantissa_end - from
    };
    if mantissa_digits < 1 {
        return false;
    }
    if mantissa_end == n {
        return true;
    }
    if to_lower(v[mantissa_end]) != 'e' {
        return false;
    }
    let exponent = if mantissa_end + 1 < n && (v[mantissa_end + 1] == '+' || v[mantissa_end + 1]
        == '-') {
        mantissa_end + 2
    } else {
        mantissa_end + 1
    };
    if exponent >= n {
        return false;
    }
    skip_digits(v, exponent) == n
}

/// Whether `text` writes a floating-point number.
pub fn float_text(text: &str) -> (b: bool)
    ensures
        b == is_float_text(text@),
{
    let v = chars_of(text);
    let from: usize = if v.len() > 0 && (v[0] == '+' || v[0] == '-') {
        1
    } else {
        0
    };
    spells_word(&v, from, "inf") || spells_word(&v, from, "infinity") || spells_word(
        &v,
        from,
        "nan",
    ) || number_at(&v, from)
}

} // verus!
