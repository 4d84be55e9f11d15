//! What splitting makes of texts that were joined by a delimiter: the parts
//! of the one, then the parts of the other.

use crate::parser::{
    closed_parts, escaped_quotes, in_quotes, is_bare_quote, is_split_point, part_start, split,
};
use crate::text::{lemma_trim_bounds, trim_end, trim_start, trimmable, trimmed};
use vstd::prelude::*;

verus! {

/// Whether the double quotes of `s` pair up: the text does not end inside a
/// quoted stretch.
pub open spec fn balanced(s: Seq<char>) -> bool {
    !in_quotes(s, s.len() as int)
}

/// Whether splitting leaves `s` as it is: nothing splits it, and it neither
/// starts nor ends with a space.
pub open spec fn unsplit(s: Seq<char>, delimiter: char) -> bool {
    split(s, delimiter) == seq![s]
}

/// The positions before `n` at which `s` is split, in ascending order.
pub open spec fn split_points(s: Seq<char>, delimiter: char, n: int) -> Seq<int>
    decreases n,
{
    if n <= 0 {
        Seq::empty()
    } else if is_split_point(s, delimiter, n - 1) {
        split_points(s, delimiter, n - 1).push(n - 1)
    } else {
        split_points(s, delimiter, n - 1)
    }
}

/// Where part `k` starts, given the split points: at 0, or behind the split
/// point before it.
pub open spec fn stretch_start(points: Seq<int>, k: int) -> int {
    if k <= 0 {
        0
    } else {
        points[k - 1] + 1
    }
}

/// Whether `s` holds neither the delimiter nor a double quote, and neither
/// starts nor ends with a space.
pub open spec fn simple(s: Seq<char>, delimiter: char) -> bool {
    &&& forall|i: int| 0 <= i < s.len() ==> #[trigger] s[i] != delimiter && s[i] != '"'
    &&& s.len() > 0 ==> s[0] != ' ' && s[s.len() - 1] != ' '
}

/// Trimming looks at the characters of the window only.
pub proof fn lemma_trim_shift(
    s: Seq<char>,
    t: Seq<char>,
    lo: int,
    hi: int,
    shift: int,
    wide: bool,
)
    requires
        0 <= lo <= hi <= s.len(),
        0 <= lo + shift,
        hi + shift <= t.len(),
        forall|i: int| lo <= i < hi ==> #[trigger] s[i] == t[i + shift],
    ensures
        trim_start(t, lo + shift, hi + shift, wide) == trim_start(s, lo, hi, wide) + shift,
        trim_end(t, lo + shift, hi + shift, wide) == trim_end(s, lo, hi, wide) + shift,
        trimmed(t, lo + shift, hi + shift, wide) == trimmed(s, lo, hi, wide),
    decreases hi - lo,
{
    lemma_trim_start_shift(s, t, lo, hi, shift, wide);
    lemma_trim_end_shift(s, t, lo, hi, shift, wide);
    let a = trim_start(s, lo, hi, wide);
    lemma_trim_bounds(s, lo, hi, wide);
    lemma_trim_end_shift(s, t, a, hi, shift, wide);
    lemma_trim_bounds(s, a, hi, wide);
    let b = trim_end(s, a, hi, wide);
    assert(t.subrange(a + shift, b + shift) =~= s.subrange(a, b));
}

proof fn lemma_trim_start_shift(
    s: Seq<char>,
    t: Seq<char>,
    lo: int,
    hi: int,
    shift: int,
    wide: bool,
)
    requires
        0 <= lo <= hi <= s.len(),
        0 <= lo + shift,
        hi + shift <= t.len(),
        forall|i: int| lo <= i < hi ==> #[trigger] s[i] == t[i + shift],
    ensures
        trim_start(t, lo + shift, hi + shift, wide) == trim_start(s, lo, hi, wide) + shift,
    decreases hi - lo,
{
    if lo < hi {
        assert(s[lo] == t[lo + shift]);
        if trimmable(s[lo], wide) {
            lemma_trim_start_shift(s, t, lo + 1, hi, shift, wide);
        }
    }
}

proof fn lemma_trim_end_shift(
    s: Seq<char>,
    t: Seq<char>,
    lo: int,
    hi: int,
    shift: int,
    wide: bool,
)
    requires
        0 <= lo <= hi <= s.len(),
        0 <= lo + shift,
        hi + shift <= t.len(),
        forall|i: int| lo <= i < hi ==> #[trigger] s[i] == t[i + shift],
    ensures
        trim_end(t, lo + shift, hi + shift, wide) == trim_end(s, lo, hi, wide) + shift,
    decreases hi - lo,
{
    if lo < hi {
        assert(s[hi - 1] == t[hi - 1 + shift]);
        if trimmable(s[hi - 1], wide) {
            lemma_trim_end_shift(s, t, lo, hi - 1, shift, wide);
        }
    }
}

/// Up to a position, splitting looks at the characters before it only.
pub proof fn lemma_split_prefix(s: Seq<char>, t: Seq<char>, delimiter: char, n: int)
    requires
        0 <= n <= s.len(),
        n <= t.len(),
        forall|i: int| 0 <= i < n ==> #[trigger] s[i] == t[i],
    ensures
        in_quotes(t, n) == in_quotes(s, n),
        part_start(t, delimiter, n) == part_start(s, delimiter, n),
        closed_parts(t, delimiter, n) == closed_parts(s, delimiter, n),
        0 <= part_start(s, delimiter, n) <= n,
    decreases n,
{
    if n > 0 {
        lemma_split_prefix(s, t, delimiter, n - 1);
        assert(s[n - 1] == t[n - 1]);
        if n > 1 {
            assert(s[n - 2] == t[n - 2]);
        }
        assert(is_bare_quote(t, n - 1) == is_bare_quote(s, n - 1));
        assert(is_split_point(t, delimiter, n - 1) == is_split_point(s, delimiter, n - 1));
        if is_split_point(s, delimiter, n - 1) {
            lemma_trim_shift(s, t, part_start(s, delimiter, n - 1), n - 1, 0, false);
        }
    }
}

/// Behind a delimiter that splits, splitting starts afresh.
pub proof fn lemma_split_suffix(
    front: Seq<char>,
    back: Seq<char>,
    delimiter: char,
    n: int,
)
    requires
        balanced(front),
        delimiter != '"',
        delimiter != '\\',
        0 <= n <= back.len(),
    ensures
        ({
            let whole = front + seq![delimiter] + back;
            let shift = front.len() + 1;
            &&& in_quotes(whole, shift + n) == in_quotes(back, n)
            &&& part_start(whole, delimiter, shift + n) == shift + part_start(back, delimiter, n)
            &&& closed_parts(whole, delimiter, shift + n) == split(front, delimiter)
                + closed_parts(back, delimiter, n)
            &&& 0 <= part_start(back, delimiter, n) <= n
        }),
    decreases n,
{
    let whole = front + seq![delimiter] + back;
    let m = front.len() as int;
    let shift = m + 1;
    if n == 0 {
        assert forall|i: int| 0 <= i < m implies #[trigger] front[i] == whole[i] by {}
        lemma_split_prefix(front, whole, delimiter, m);
        assert(whole[m] == delimiter);
        assert(!is_bare_quote(whole, m));
        assert(is_split_point(whole, delimiter, m));
        lemma_trim_shift(front, whole, part_start(front, delimiter, m), m, 0, false);
        assert(closed_parts(whole, delimiter, shift) == split(front, delimiter));
        assert(split(front, delimiter) + closed_parts(back, delimiter, 0) =~= split(
            front,
            delimiter,
        ));
    } else {
        lemma_split_suffix(front, back, delimiter, n - 1);
        assert(whole[shift + n - 1] == back[n - 1]);
        if n > 1 {
            assert(whole[shift + n - 2] == back[n - 2]);
        } else {
            assert(whole[shift + n - 2] == delimiter);
        }
        assert(is_bare_quote(whole, shift + n - 1) == is_bare_quote(back, n - 1));
        assert(is_split_point(whole, delimiter, shift + n - 1) == is_split_point(
            back,
            delimiter,
            n - 1,
        ));
        if is_split_point(back, delimiter, n - 1) {
            let start = part_start(back, delimiter, n - 1);
            assert forall|i: int| start <= i < n - 1 implies #[trigger] back[i] == whole[i
                + shift] by {}
            lemma_trim_shift(back, whole, start, n - 1, shift, false);
            assert(closed_parts(whole, delimiter, shift + n) =~= split(front, delimiter)
                + closed_parts(back, delimiter, n));
        }
    }
}

/// Two texts joined by the delimiter split into the parts of the first and
/// the parts of the second, if the quotes of the first pair up.
pub proof fn lemma_split_joined(front: Seq<char>, back: Seq<char>, delimiter: char)
    requires
        balanced(front),
        delimiter != '"',
        delimiter != '\\',
    ensures
        split(front + seq![delimiter] + back, delimiter) == split(front, delimiter) + split(
            back,
            delimiter,
        ),
        balanced(front + seq![delimiter] + back) == balanced(back),
{
    let whole = front + seq![delimiter] + back;
    let shift = front.len() as int + 1;
    let n = back.len() as int;
    lemma_split_suffix(front, back, delimiter, n);
    let start = part_start(back, delimiter, n);
    assert forall|i: int| start <= i < n implies #[trigger] back[i] == whole[i + shift] by {}
    lemma_trim_shift(back, whole, start, n, shift, false);
    assert(split(whole, delimiter) =~= split(front, delimiter) + split(back, delimiter));
}

/// A text without the delimiter and without double quotes is one part, and
/// its quotes pair up.
pub proof fn lemma_split_simple(s: Seq<char>, delimiter: char)
    requires
        simple(s, delimiter),
    ensures
        unsplit(s, delimiter),
        balanced(s),
{
    lemma_no_split_point(s, delimiter, s.len() as int);
    let n = s.len() as int;
    if n > 0 {
        assert(!trimmable(s[0], false));
        assert(!trimmable(s[n - 1], false));
    }
    assert(trimmed(s, 0, n, false) =~= s);
    assert(split(s, delimiter) =~= seq![s]);
}

proof fn lemma_no_split_point(s: Seq<char>, delimiter: char, n: int)
    requires
        forall|i: int| 0 <= i < s.len() ==> #[trigger] s[i] != delimiter && s[i] != '"',
        0 <= n <= s.len(),
    ensures
        !in_quotes(s, n),
        part_start(s, delimiter, n) == 0,
        closed_parts(s, delimiter, n) == Seq::<Seq<char>>::empty(),
    decreases n,
{
    if n > 0 {
        lemma_no_split_point(s, delimiter, n - 1);
        assert(s[n - 1] != delimiter && s[n - 1] != '"');
    }
}

/// A text in double quotes is one part whatever delimiters it holds, if the
/// double quotes inside it are escaped and it does not end with a backslash.
pub proof fn lemma_split_quoted(inner: Seq<char>, delimiter: char)
    requires
        escaped_quotes(inner),
        inner.len() > 0 ==> inner.last() != '\\',
    ensures
        unsplit(seq!['"'] + inner + seq!['"'], delimiter),
        balanced(seq!['"'] + inner + seq!['"']),
{
    let s = seq!['"'] + inner + seq!['"'];
    let n = s.len() as int;
    lemma_inside_quotes(inner, delimiter, n - 1);
    assert(s[n - 1] == '"');
    assert(s[n - 2] != '\\') by {
        if inner.len() > 0 {
            assert(s[n - 2] == inner.last());
        }
    }
    assert(is_bare_quote(s, n - 1));
    assert(!is_split_point(s, delimiter, n - 1));
    assert(!trimmable(s[0], false));
    assert(!trimmable(s[n - 1], false));
    assert(trimmed(s, 0, n, false) =~= s);
    assert(split(s, delimiter) =~= seq![s]);
}

proof fn lemma_inside_quotes(inner: Seq<char>, delimiter: char, n: int)
    requires
        escaped_quotes(inner),
        1 <= n <= inner.len() + 1,
    ensures
        in_quotes(seq!['"'] + inner + seq!['"'], n),
        part_start(seq!['"'] + inner + seq!['"'], delimiter, n) == 0,
        closed_parts(seq!['"'] + inner + seq!['"'], delimiter, n) == Seq::<Seq<char>>::empty(),
    decreases n,
{
    let s = seq!['"'] + inner + seq!['"'];
    if n == 1 {
        assert(s[0] == '"');
        assert(is_bare_quote(s, 0));
        assert(!in_quotes(s, 0));
        assert(!is_split_point(s, delimiter, 0));
        assert(part_start(s, delimiter, 0) == 0);
        assert(closed_parts(s, delimiter, 0) == Seq::<Seq<char>>::empty());
    } else {
        lemma_inside_quotes(inner, delimiter, n - 1);
        assert(s[n - 1] == inner[n - 2]);
        if inner[n - 2] == '"' {
            assert(s[n - 2] == inner[n - 3]);
        }
        assert(!is_bare_quote(s, n - 1));
        assert(!is_split_point(s, delimiter, n - 1));
    }
}

/// The parts of a text are the stretches between its split points, each
/// trimmed of spaces: there is one part more than there are split points.
pub proof fn lemma_split_parts(s: Seq<char>, delimiter: char)
    ensures
        split(s, delimiter).len() == split_points(s, delimiter, s.len() as int).len() + 1,
        forall|k: int|
            0 <= k < split_points(s, delimiter, s.len() as int).len() ==> #[trigger] split(
                s,
                delimiter,
            )[k] == trimmed(
                s,
                stretch_start(split_points(s, delimiter, s.len() as int), k),
                split_points(s, delimiter, s.len() as int)[k],
                false,
            ),
        split(s, delimiter).last() == trimmed(
            s,
            stretch_start(
                split_points(s, delimiter, s.len() as int),
                split_points(s, delimiter, s.len() as int).len() as int,
            ),
            s.len() as int,
            false,
        ),
{
    lemma_closed_parts(s, delimiter, s.len() as int);
}

proof fn lemma_closed_parts(s: Seq<char>, delimiter: char, n: int)
    requires
        0 <= n <= s.len(),
    ensures
        closed_parts(s, delimiter, n).len() == split_points(s, delimiter, n).len(),
        part_start(s, delimiter, n) == stretch_start(
            split_points(s, delimiter, n),
            split_points(s, delimiter, n).len() as int,
        ),
        forall|k: int|
            0 <= k < split_points(s, delimiter, n).len() ==> #[trigger] closed_parts(
                s,
                delimiter,
                n,
            )[k] == trimmed(
                s,
                stretch_start(split_points(s, delimiter, n), k),
                split_points(s, delimiter, n)[k],
                false,
            ),
    decreases n,
{
    if n > 0 {
        lemma_closed_parts(s, delimiter, n - 1);
        let before = split_points(s, delimiter, n - 1);
        let points = split_points(s, delimiter, n);
        if is_split_point(s, delimiter, n - 1) {
            assert forall|k: int| 0 <= k < points.len() implies #[trigger] closed_parts(
                s,
                delimiter,
                n,
            )[k] == trimmed(s, stretch_start(points, k), points[k], false) by {
                if k < before.len() {
                    assert(points[k] == before[k]);
                    assert(stretch_start(points, k) == stretch_start(before, k)) by {
                        if k > 0 {
                            assert(points[k - 1] == before[k - 1]);
                        }
                    }
                    assert(closed_parts(s, delimiter, n)[k] == closed_parts(
                        s,
                        delimiter,
                        n - 1,
                    )[k]);
                }
            }
        }
    }
}

} // verus!
