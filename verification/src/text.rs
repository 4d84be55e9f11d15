//! Character-level building blocks of the protocol: windows of a character
//! sequence, trimming, prefixes and the order of keys.

use vstd::prelude::*;
use vstd::std_specs::iter::IteratorSpec;
use vstd::string::*;

verus! {

/// `String::push` appends one character to the end of the string.
pub assume_specification[ String::push ](s: &mut String, c: char)
    ensures
        final(s)@ == old(s)@.push(c),
;

/// Whether `c` is one of the code points with the Unicode `White_Space` property.
pub open spec fn is_whitespace(c: char) -> bool {
    let u = c as int;
    ||| 0x09 <= u <= 0x0D
    ||| u == 0x20
    ||| u == 0x85
    ||| u == 0xA0
    ||| u == 0x1680
    ||| 0x2000 <= u <= 0x200A
    ||| u == 0x2028
    ||| u == 0x2029
    ||| u == 0x202F
    ||| u == 0x205F
    ||| u == 0x3000
}

/// Whether trimming removes `c`: any white space when `wide`, else only the space character.
pub open spec fn trimmable(c: char, wide: bool) -> bool {
    if wide {
        is_whitespace(c)
    } else {
        c == ' '
    }
}

/// The first position in `[lo, hi)` that trimming keeps, or `hi` if there is none.
pub open spec fn trim_start(s: Seq<char>, lo: int, hi: int, wide: bool) -> int
    decreases hi - lo,
{
    if 0 <= lo < hi <= s.len() && trimmable(s[lo], wide) {
        trim_start(s, lo + 1, hi, wide)
    } else {
        lo
    }
}

/// One past the last position in `[lo, hi)` that trimming keeps, or `lo` if there is none.
pub open spec fn trim_end(s: Seq<char>, lo: int, hi: int, wide: bool) -> int
    decreases hi - lo,
{
    if 0 <= lo < hi <= s.len() && trimmable(s[hi - 1], wide) {
        trim_end(s, lo, hi - 1, wide)
    } else {
        hi
    }
}

/// The window `[lo, hi)` of `s` without its leading and trailing trimmable characters.
pub open spec fn trimmed(s: Seq<char>, lo: int, hi: int, wide: bool) -> Seq<char> {
    let a = trim_start(s, lo, hi, wide);
    s.subrange(a, trim_end(s, a, hi, wide))
}

/// `s` without leading and trailing white space.
pub open spec fn trim_whitespace(s: Seq<char>) -> Seq<char> {
    trimmed(s, 0, s.len() as int, true)
}

/// Whether `a` comes strictly before `b` when the two are compared character
/// by character, by code point: at the first position where they differ `a`
/// has the smaller code point, or `a` ends there and `b` goes on.
pub open spec fn lex_less(a: Seq<char>, b: Seq<char>) -> bool {
    exists|k: int| differ_at(a, b, k)
}

/// `a` and `b` agree before position `k`, where `a` is the smaller one.
pub open spec fn differ_at(a: Seq<char>, b: Seq<char>, k: int) -> bool {
    &&& 0 <= k <= a.len()
    &&& k <= b.len()
    &&& a.take(k) == b.take(k)
    &&& if k == a.len() {
        k < b.len()
    } else {
        k < b.len() && (a[k] as int) < (b[k] as int)
    }
}

/// `a` comes before `b` or equals it.
pub open spec fn lex_at_most(a: Seq<char>, b: Seq<char>) -> bool {
    a == b || lex_less(a, b)
}

/// `s` with every line feed written as a backslash followed by `n`.
pub open spec fn escape_newlines(s: Seq<char>) -> Seq<char>
    decreases s.len(),
{
    if s.len() == 0 {
        s
    } else if s.last() == '\n' {
        escape_newlines(s.drop_last()).push('\\').push('n')
    } else {
        escape_newlines(s.drop_last()).push(s.last())
    }
}

/// Whether the text holds no line feed.
pub open spec fn single_line(s: Seq<char>) -> bool {
    !s.contains('\n')
}

/// The bounds that trimming yields stay inside the window.
pub proof fn lemma_trim_bounds(s: Seq<char>, lo: int, hi: int, wide: bool)
    requires
        0 <= lo <= hi <= s.len(),
    ensures
        lo <= trim_start(s, lo, hi, wide) <= hi,
        lo <= trim_end(s, lo, hi, wide) <= hi,
    decreases hi - lo,
{
    if lo < hi {
        if trimmable(s[lo], wide) {
            lemma_trim_bounds(s, lo + 1, hi, wide);
        }
        if trimmable(s[hi - 1], wide) {
            lemma_trim_bounds(s, lo, hi - 1, wide);
        }
    }
}

/// What trimming leaves neither starts nor ends with a trimmable character,
/// and everything it removed was trimmable.
pub proof fn lemma_trimmed_edges(s: Seq<char>, lo: int, hi: int, wide: bool)
    requires
        0 <= lo <= hi <= s.len(),
    ensures
        ({
            let a = trim_start(s, lo, hi, wide);
            let b = trim_end(s, a, hi, wide);
            &&& lo <= a <= b <= hi
            &&& forall|i: int| lo <= i < a ==> trimmable(#[trigger] s[i], wide)
            &&& forall|i: int| b <= i < hi ==> trimmable(#[trigger] s[i], wide)
            &&& a < b ==> !trimmable(s[a], wide) && !trimmable(s[b - 1], wide)
        }),
{
    lemma_trim_start_edge(s, lo, hi, wide);
    let a = trim_start(s, lo, hi, wide);
    lemma_trim_end_edge(s, a, hi, wide);
}

proof fn lemma_trim_start_edge(s: Seq<char>, lo: int, hi: int, wide: bool)
    requires
        0 <= lo <= hi <= s.len(),
    ensures
        lo <= trim_start(s, lo, hi, wide) <= hi,
        forall|i: int| lo <= i < trim_start(s, lo, hi, wide) ==> trimmable(#[trigger] s[i], wide),
        trim_start(s, lo, hi, wide) < hi ==> !trimmable(s[trim_start(s, lo, hi, wide)], wide),
    decreases hi - lo,
{
    if lo < hi && trimmable(s[lo], wide) {
        lemma_trim_start_edge(s, lo + 1, hi, wide);
    }
}

proof fn lemma_trim_end_edge(s: Seq<char>, lo: int, hi: int, wide: bool)
    requires
        0 <= lo <= hi <= s.len(),
    ensures
        lo <= trim_end(s, lo, hi, wide) <= hi,
        forall|i: int| trim_end(s, lo, hi, wide) <= i < hi ==> trimmable(#[trigger] s[i], wide),
        lo < trim_end(s, lo, hi, wide) ==> !trimmable(s[trim_end(s, lo, hi, wide) - 1], wide),
    decreases hi - lo,
{
    if lo < hi && trimmable(s[hi - 1], wide) {
        lemma_trim_end_edge(s, lo, hi - 1, wide);
    }
}

/// The order of texts is transitive.
pub proof fn lemma_lex_transitive(a: Seq<char>, b: Seq<char>, c: Seq<char>)
    requires
        lex_less(a, b),
        lex_less(b, c),
    ensures
        lex_less(a, c),
{
    let i = choose|k: int| differ_at(a, b, k);
    let j = choose|k: int| differ_at(b, c, k);
    let m = if i <= j {
        i
    } else {
        j
    };
    assert(a.take(m) =~= a.take(i).take(m));
    assert(b.take(m) =~= b.take(i).take(m));
    assert(b.take(m) =~= b.take(j).take(m));
    assert(c.take(m) =~= c.take(j).take(m));
    if j < i {
        assert(a[j] == a.take(i)[j]);
        assert(b[j] == b.take(i)[j]);
    }
    if i < j {
        assert(b[i] == b.take(j)[i]);
        assert(c[i] == c.take(j)[i]);
    }
    assert(differ_at(a, c, m));
}

/// Of two different texts one comes before the other.
pub proof fn lemma_lex_total(a: Seq<char>, b: Seq<char>)
    ensures
        a == b || lex_less(a, b) || lex_less(b, a),
{
    assert(a.take(0) =~= b.take(0));
    lemma_lex_total_from(a, b, 0);
}

proof fn lemma_lex_total_from(a: Seq<char>, b: Seq<char>, k: int)
    requires
        0 <= k <= a.len(),
        k <= b.len(),
        a.take(k) == b.take(k),
    ensures
        a == b || lex_less(a, b) || lex_less(b, a),
    decreases a.len() - k,
{
    if k == a.len() {
        if k == b.len() {
            assert(a.take(k) == a);
            assert(b.take(k) == b);
        } else {
            assert(differ_at(a, b, k));
        }
    } else if k == b.len() {
        assert(differ_at(b, a, k));
    } else if a[k] == b[k] {
        assert(a.take(k + 1) =~= a.take(k).push(a[k]));
        assert(b.take(k + 1) =~= b.take(k).push(b[k]));
        lemma_lex_total_from(a, b, k + 1);
    } else if (a[k] as int) < (b[k] as int) {
        assert(differ_at(a, b, k));
    } else {
        assert(differ_at(b, a, k));
    }
}

/// A text cannot come both before and after another.
pub proof fn lemma_lex_asymmetric(a: Seq<char>, b: Seq<char>)
    requires
        lex_less(a, b),
    ensures
        !lex_less(b, a),
        a != b,
{
    if lex_less(b, a) {
        lemma_lex_transitive(a, b, a);
    }
}

/// Escaping leaves no line feed behind.
pub proof fn lemma_escape_newlines_single_line(s: Seq<char>)
    ensures
        single_line(escape_newlines(s)),
    decreases s.len(),
{
    if s.len() > 0 {
        lemma_escape_newlines_single_line(s.drop_last());
        let e = escape_newlines(s.drop_last());
        if s.last() == '\n' {
            assert forall|i: int| 0 <= i < e.push('\\').push('n').len() implies e.push('\\').push(
                'n',
            )[i] != '\n' by {
                if i < e.len() {
                    assert(e.contains(e[i]));
                }
            }
        } else {
            assert forall|i: int| 0 <= i < e.push(s.last()).len() implies e.push(s.last())[i]
                != '\n' by {
                if i < e.len() {
                    assert(e.contains(e[i]));
                }
            }
        }
    }
}

/// Two texts without a line feed make one without a line feed.
pub proof fn lemma_single_line_concat(a: Seq<char>, b: Seq<char>)
    requires
        single_line(a),
        single_line(b),
    ensures
        single_line(a + b),
{
    assert forall|i: int| 0 <= i < (a + b).len() implies (a + b)[i] != '\n' by {
        if i < a.len() {
            assert(a.contains(a[i]));
        } else {
            assert(b.contains(b[i - a.len()]));
        }
    }
}

/// A stretch of a text without a line feed holds none either.
pub proof fn lemma_single_line_subrange(s: Seq<char>, from: int, to: int)
    requires
        single_line(s),
        0 <= from <= to <= s.len(),
    ensures
        single_line(s.subrange(from, to)),
{
    assert forall|i: int| 0 <= i < to - from implies s.subrange(from, to)[i] != '\n' by {
        assert(s.contains(s[from + i]));
    }
}

/// What trimming leaves of a text without a line feed holds none either.
pub proof fn lemma_single_line_trimmed(s: Seq<char>, lo: int, hi: int, wide: bool)
    requires
        single_line(s),
        0 <= lo <= hi <= s.len(),
    ensures
        single_line(trimmed(s, lo, hi, wide)),
{
    lemma_trimmed_edges(s, lo, hi, wide);
    let a = trim_start(s, lo, hi, wide);
    lemma_single_line_subrange(s, a, trim_end(s, a, hi, wide));
}

/// Whether `a` comes strictly before `b` in the order of keys.
pub fn text_less(a: &str, b: &str) -> (r: bool)
    ensures
        r == lex_less(a@, b@),
{
    let mut x = a.chars();
    let mut y = b.chars();
    let ghost mut k: int = 0;
    loop
        invariant
            0 <= k <= a@.len(),
            k <= b@.len(),
            x.remaining() == a@.skip(k),
            y.remaining() == b@.skip(k),
            a@.take(k) == b@.take(k),
        decreases a@.len() - k,
    {
        let p = x.next();
        let q = y.next();
        match (p, q) {
            (None, None) => {
                proof {
                    assert(a@.take(k) == a@);
                    assert(b@.take(k) == b@);
                }
                return false;
            },
            (None, Some(_)) => {
                proof {
                    assert(differ_at(a@, b@, k));
                }
                return true;
            },
            (Some(_), None) => {
                proof {
                    assert(differ_at(b@, a@, k));
                    lemma_lex_asymmetric(b@, a@);
                }
                return false;
            },
            (Some(c), Some(d)) => {
                proof {
                    assert(c == a@[k]);
                    assert(d == b@[k]);
                }
                if c != d {
                    let less = c < d;
                    proof {
                        if less {
                            assert(differ_at(a@, b@, k));
                        } else {
                            assert(differ_at(b@, a@, k));
                            lemma_lex_asymmetric(b@, a@);
                        }
                    }
                    return less;
                }
                proof {
                    assert(a@.take(k + 1) =~= a@.take(k).push(a@[k]));
                    assert(b@.take(k + 1) =~= b@.take(k).push(b@[k]));
                    assert(a@.skip(k).drop_first() =~= a@.skip(k + 1));
                    assert(b@.skip(k).drop_first() =~= b@.skip(k + 1));
                    k = k + 1;
                }
            },
        }
    }
}

/// The characters of `s`, in order.
pub fn chars_of(s: &str) -> (v: Vec<char>)
    ensures
        v@ == s@,
{
    let mut v: Vec<char> = Vec::new();
    for c in it: s.chars()
        invariant
            it.seq() == s@,
            v@ == s@.take(it.index()),
    {
        v.push(c);
    }
    v
}

/// Whether `c` is white space.
pub fn whitespace(c: char) -> (b: bool)
    ensures
        b == is_whitespace(c),
{
    let u: u32 = c as u32;
    (0x09 <= u && u <= 0x0D) || u == 0x20 || u == 0x85 || u == 0xA0 || u == 0x1680 || (0x2000 <= u
        && u <= 0x200A) || u == 0x2028 || u == 0x2029 || u == 0x202F || u == 0x205F || u == 0x3000
}

/// Whether trimming removes `c`.
pub fn is_trimmable(c: char, wide: bool) -> (b: bool)
    ensures
        b == trimmable(c, wide),
{
    if wide {
        whitespace(c)
    } else {
        c == ' '
    }
}

/// Trims the window `[lo, hi)` of `v` and returns the bounds of what is left.
pub fn trim_window(v: &Vec<char>, lo: usize, hi: usize, wide: bool) -> (r: (usize, usize))
    requires
        lo <= hi <= v.len(),
    ensures
        r.0 == trim_start(v@, lo as int, hi as int, wide),
        r.1 == trim_end(v@, r.0 as int, hi as int, wide),
        lo <= r.0 <= r.1 <= hi,
        v@.subrange(r.0 as int, r.1 as int) == trimmed(v@, lo as int, hi as int, wide),
{
    let mut a: usize = lo;
    while a < hi && is_trimmable(v[a], wide)
        invariant
            lo <= a <= hi <= v.len(),
            trim_start(v@, a as int, hi as int, wide) == trim_start(v@, lo as int, hi as int, wide),
        decreases hi - a,
    {
        a += 1;
    }
    let mut b: usize = hi;
    while a < b && is_trimmable(v[b - 1], wide)
        invariant
            a <= b <= hi <= v.len(),
            trim_end(v@, a as int, b as int, wide) == trim_end(v@, a as int, hi as int, wide),
        decreases b - a,
    {
        b -= 1;
    }
    (a, b)
}

/// Whether `v` starts with the characters of `prefix`.
pub fn has_prefix(v: &Vec<char>, prefix: &str) -> (b: bool)
    ensures
        b == prefix@.is_prefix_of(v@),
{
    let p = chars_of(prefix);
    if p.len() > v.len() {
        return false;
    }
    let mut i: usize = 0;
    while i < p.len()
        invariant
            i <= p.len() <= v.len(),
            p@ == prefix@,
            p@.take(i as int) == v@.take(i as int),
        decreases p.len() - i,
    {
        if p[i] != v[i] {
            assert(p@[i as int] != v@.subrange(0, p@.len() as int)[i as int]);
            return false;
        }
        assert(p@.take(i + 1) == p@.take(i as int).push(p@[i as int]));
        assert(v@.take(i + 1) == v@.take(i as int).push(v@[i as int]));
        i += 1;
    }
    assert(p@.take(p@.len() as int) == p@);
    assert(v@.take(p@.len() as int) == v@.subrange(0, p@.len() as int));
    true
}

/// Appends `text` to `s`, writing each line feed as a backslash followed by `n`.
pub fn push_escaped(s: &mut String, text: &str)
    ensures
        final(s)@ == old(s)@ + escape_newlines(text@),
{
    let v = chars_of(text);
    let mut i: usize = 0;
    assert(v@.take(0) =~= Seq::<char>::empty());
    assert(old(s)@ + escape_newlines(v@.take(0)) =~= old(s)@);
    while i < v.len()
        invariant
            i <= v.len(),
            v@ == text@,
            s@ == old(s)@ + escape_newlines(v@.take(i as int)),
        decreases v.len() - i,
    {
        let ghost before = v@.take(i as int);
        let ghost next = v@.take(i + 1);
        assert(next.drop_last() =~= before);
        assert(next.last() == v@[i as int]);
        if v[i] == '\n' {
            s.push('\\');
            s.push('n');
            assert(old(s)@ + escape_newlines(next) =~= (old(s)@ + escape_newlines(before)).push(
                '\\',
            ).push('n'));
        } else {
            s.push(v[i]);
            assert(old(s)@ + escape_newlines(next) =~= (old(s)@ + escape_newlines(before)).push(
                v@[i as int],
            ));
        }
        i += 1;
    }
    assert(v@.take(v@.len() as int) =~= v@);
}

/// Whether `c` occurs in `v`.
pub fn has_char(v: &Vec<char>, c: char) -> (b: bool)
    ensures
        b == v@.contains(c),
{
    let mut i: usize = 0;
    while i < v.len()
        invariant
            i <= v.len(),
            forall|j: int| 0 <= j < i ==> v@[j] != c,
        decreases v.len() - i,
    {
        if v[i] == c {
            return true;
        }
        i += 1;
    }
    false
}

/// Whether the two strings hold the same characters.
pub fn same_text(a: &str, b: &str) -> (r: bool)
    ensures
        r == (a@ == b@),
{
    let mut x = a.chars();
    let mut y = b.chars();
    let ghost mut k: int = 0;
    loop
        invariant
            0 <= k <= a@.len(),
            k <= b@.len(),
            x.remaining() == a@.skip(k),
            y.remaining() == b@.skip(k),
            a@.take(k) == b@.take(k),
        decreases a@.len() - k,
    {
        let p = x.next();
        let q = y.next();
        match (p, q) {
            (None, None) => {
                proof {
                    assert(a@.take(k) == a@);
                    assert(b@.take(k) == b@);
                }
                return true;
            },
            (Some(c), Some(d)) => {
                proof {
                    assert(c == a@[k]);
                    assert(d == b@[k]);
                }
                if c != d {
                    return false;
                }
                proof {
                    assert(a@.take(k + 1) =~= a@.take(k).push(a@[k]));
                    assert(b@.take(k + 1) =~= b@.take(k).push(b@[k]));
                    assert(a@.skip(k).drop_first() =~= a@.skip(k + 1));
                    assert(b@.skip(k).drop_first() =~= b@.skip(k + 1));
                    k = k + 1;
                }
            },
            _ => {
                return false;
            },
        }
    }
}

/// `text` without leading and trailing white space.
pub fn trim_text(text: &str) -> (rest: &str)
    ensures
        rest@ == trim_whitespace(text@),
{
    let v = chars_of(text);
    let bounds = trim_window(&v, 0, v.len(), true);
    text.substring_char(bounds.0, bounds.1)
}

} // verus!
