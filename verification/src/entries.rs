//! Entries in ascending order of their keys, and the map that they stand
//! for: what finding, inserting and removing do to both.

use crate::errors::database_errors::DatabaseErrorKind;
use crate::schemas::{DatabaseType, Pair, Value};
use crate::text::{lemma_lex_asymmetric, lemma_lex_transitive, lex_at_most, lex_less};
use vstd::prelude::*;

verus! {

/// Whether the keys of the entries are strictly ascending.
pub open spec fn ascending(entries: Seq<Pair>) -> bool {
    forall|i: int, j: int|
        0 <= i < j < entries.len() ==> lex_less(
            (#[trigger] entries[i]).key,
            (#[trigger] entries[j]).key,
        )
}

/// Whether every value is of the given type.
pub open spec fn typed(entries: Seq<Pair>, database_type: DatabaseType) -> bool {
    forall|i: int| 0 <= i < entries.len() ==> (#[trigger] entries[i]).value.tag() == database_type
}

/// Whether every value is one that the store can hold.
pub open spec fn formed(entries: Seq<Pair>) -> bool {
    forall|i: int| 0 <= i < entries.len() ==> (#[trigger] entries[i]).value.well_formed()
}

/// Whether an entry has the given key.
pub open spec fn has_key(entries: Seq<Pair>, key: Seq<char>) -> bool {
    exists|i: int| 0 <= i < entries.len() && (#[trigger] entries[i]).key == key
}

/// The position of an entry with the given key.
pub open spec fn position(entries: Seq<Pair>, key: Seq<char>) -> int {
    choose|i: int| 0 <= i < entries.len() && (#[trigger] entries[i]).key == key
}

/// The map that the entries stand for.
pub open spec fn map_of(entries: Seq<Pair>) -> Map<Seq<char>, Value> {
    Map::new(
        |key: Seq<char>| has_key(entries, key),
        |key: Seq<char>| entries[position(entries, key)].value,
    )
}

/// Whether `key` lies in the range from `lower` to `upper`, both included.
pub open spec fn in_range(key: Seq<char>, lower: Seq<char>, upper: Seq<char>) -> bool {
    lex_at_most(lower, key) && lex_at_most(key, upper)
}

/// The entries whose keys lie in the range, in the order of the entries.
pub open spec fn pairs_between(entries: Seq<Pair>, lower: Seq<char>, upper: Seq<char>) -> Seq<Pair>
    decreases entries.len(),
{
    if entries.len() == 0 {
        Seq::empty()
    } else if in_range(entries.last().key, lower, upper) {
        pairs_between(entries.drop_last(), lower, upper).push(entries.last())
    } else {
        pairs_between(entries.drop_last(), lower, upper)
    }
}

/// Whether `found` holds the entries of `map` whose keys lie in the range, in
/// strictly ascending order of the keys: each of them is an entry of the map
/// with a key in the range, and no key of the map that lies in the range is
/// missing.
pub open spec fn is_range_of(
    found: Seq<Pair>,
    map: Map<Seq<char>, Value>,
    lower: Seq<char>,
    upper: Seq<char>,
) -> bool {
    &&& ascending(found)
    &&& forall|i: int|
        0 <= i < found.len() ==> {
            let pair = #[trigger] found[i];
            &&& in_range(pair.key, lower, upper)
            &&& map.contains_key(pair.key)
            &&& map[pair.key] == pair.value
        }
    &&& forall|key: Seq<char>|
        map.contains_key(key) && in_range(key, lower, upper) ==> #[trigger] has_key(found, key)
}

/// The values of the entries, in their order.
pub open spec fn values_of(entries: Seq<Pair>) -> Seq<Value> {
    Seq::new(entries.len(), |i: int| entries[i].value)
}

/// The values of the first `n` keys, or the first of them that is missing.
pub open spec fn many_values(map: Map<Seq<char>, Value>, keys: Seq<Seq<char>>, n: int) -> Result<
    Seq<Value>,
    DatabaseErrorKind,
>
    decreases n,
{
    if n <= 0 {
        Ok(Seq::empty())
    } else {
        match many_values(map, keys, n - 1) {
            Err(kind) => Err(kind),
            Ok(found) => if map.contains_key(keys[n - 1]) {
                Ok(found.push(map[keys[n - 1]]))
            } else {
                Err(DatabaseErrorKind::KeyNotFound(keys[n - 1]))
            },
        }
    }
}

/// The map after the first `n` pairs were stored in it, one after the other.
pub open spec fn with_pairs(map: Map<Seq<char>, Value>, list: Seq<Pair>, n: int) -> Map<
    Seq<char>,
    Value,
>
    decreases n,
{
    if n <= 0 {
        map
    } else {
        with_pairs(map, list, n - 1).insert(list[n - 1].key, list[n - 1].value)
    }
}

/// The map after the first `n` keys were deleted from it.
pub open spec fn without_keys(map: Map<Seq<char>, Value>, keys: Seq<Seq<char>>, n: int) -> Map<
    Seq<char>,
    Value,
>
    decreases n,
{
    if n <= 0 {
        map
    } else {
        without_keys(map, keys, n - 1).remove(keys[n - 1])
    }
}

/// The map without the keys in the range.
pub open spec fn without_range(
    map: Map<Seq<char>, Value>,
    lower: Seq<char>,
    upper: Seq<char>,
) -> Map<Seq<char>, Value> {
    Map::new(
        |key: Seq<char>| map.contains_key(key) && !in_range(key, lower, upper),
        |key: Seq<char>| map[key],
    )
}

/// Whether every pair holds a value of the given type.
pub open spec fn all_typed(list: Seq<Pair>, database_type: DatabaseType) -> bool {
    forall|i: int| 0 <= i < list.len() ==> (#[trigger] list[i]).value.tag() == database_type
}

/// Whether `pair` is one of the entries.
pub open spec fn holds(entries: Seq<Pair>, pair: Pair) -> bool {
    exists|i: int| 0 <= i < entries.len() && #[trigger] entries[i] == pair
}

/// In ascending entries each key stands at one position only.
pub proof fn lemma_position(entries: Seq<Pair>, i: int)
    requires
        ascending(entries),
        0 <= i < entries.len(),
    ensures
        has_key(entries, entries[i].key),
        position(entries, entries[i].key) == i,
        map_of(entries).contains_key(entries[i].key),
        map_of(entries)[entries[i].key] == entries[i].value,
{
    let key = entries[i].key;
    let j = position(entries, key);
    if j < i {
        lemma_lex_asymmetric(entries[j].key, entries[i].key);
    }
    if i < j {
        lemma_lex_asymmetric(entries[i].key, entries[j].key);
    }
}

/// A key that falls between two neighbours is not among the entries.
pub proof fn lemma_absent(entries: Seq<Pair>, key: Seq<char>, at: int)
    requires
        ascending(entries),
        0 <= at <= entries.len(),
        forall|i: int| 0 <= i < at ==> lex_less((#[trigger] entries[i]).key, key),
        at < entries.len() ==> lex_less(key, entries[at].key),
    ensures
        !has_key(entries, key),
        !map_of(entries).contains_key(key),
{
    lemma_beyond(entries, key, at);
    assert forall|i: int| 0 <= i < entries.len() implies (#[trigger] entries[i]).key != key by {
        if i < at {
            lemma_lex_asymmetric(entries[i].key, key);
        } else {
            lemma_lex_asymmetric(key, entries[i].key);
        }
    }
}

/// A key that comes before one entry comes before all that follow it.
pub proof fn lemma_beyond(entries: Seq<Pair>, key: Seq<char>, at: int)
    requires
        ascending(entries),
        0 <= at <= entries.len(),
        at < entries.len() ==> lex_less(key, entries[at].key),
    ensures
        forall|i: int| at <= i < entries.len() ==> lex_less(key, (#[trigger] entries[i]).key),
{
    assert forall|i: int| at <= i < entries.len() implies lex_less(
        key,
        (#[trigger] entries[i]).key,
    ) by {
        if at < i {
            lemma_lex_transitive(key, entries[at].key, entries[i].key);
        }
    }
}

/// Putting a new key at its place keeps the order and adds it to the map.
pub proof fn lemma_insert(entries: Seq<Pair>, at: int, pair: Pair)
    requires
        ascending(entries),
        0 <= at <= entries.len(),
        forall|i: int| 0 <= i < at ==> lex_less((#[trigger] entries[i]).key, pair.key),
        at < entries.len() ==> lex_less(pair.key, entries[at].key),
    ensures
        ascending(entries.insert(at, pair)),
        map_of(entries.insert(at, pair)) == map_of(entries).insert(pair.key, pair.value),
{
    let after = entries.insert(at, pair);
    lemma_beyond(entries, pair.key, at);
    assert forall|i: int, j: int| 0 <= i < j < after.len() implies lex_less(
        (#[trigger] after[i]).key,
        (#[trigger] after[j]).key,
    ) by {
        let a = if i < at {
            i
        } else {
            i - 1
        };
        let b = if j < at {
            j
        } else {
            j - 1
        };
        if i != at && j != at {
            assert(after[i] == entries[a]);
            assert(after[j] == entries[b]);
        } else if i == at {
            assert(after[j] == entries[b]);
        } else {
            assert(after[i] == entries[a]);
        }
    }
    assert forall|key: Seq<char>| #[trigger]
        map_of(after).contains_key(key) == map_of(entries).insert(
            pair.key,
            pair.value,
        ).contains_key(key) by {
        if has_key(after, key) {
            let i = position(after, key);
            if i < at {
                assert(entries[i].key == key);
            } else if i > at {
                assert(entries[i - 1].key == key);
            }
        }
        if key == pair.key {
            assert(after[at].key == key);
        } else if has_key(entries, key) {
            let i = position(entries, key);
            if i < at {
                assert(after[i].key == key);
            } else {
                assert(after[i + 1].key == key);
            }
        }
    }
    assert forall|key: Seq<char>| #[trigger] map_of(after).contains_key(key) implies map_of(
        after,
    )[key] == map_of(entries).insert(pair.key, pair.value)[key] by {
        let i = position(after, key);
        lemma_position(after, i);
        if i < at {
            lemma_position(entries, i);
        } else if i > at {
            lemma_position(entries, i - 1);
        }
    }
    assert(map_of(after) =~= map_of(entries).insert(pair.key, pair.value));
}

/// Writing a new value over an entry keeps the order and changes the map at its key.
pub proof fn lemma_replace(entries: Seq<Pair>, at: int, pair: Pair)
    requires
        ascending(entries),
        0 <= at < entries.len(),
        entries[at].key == pair.key,
    ensures
        ascending(entries.update(at, pair)),
        map_of(entries.update(at, pair)) == map_of(entries).insert(pair.key, pair.value),
{
    let after = entries.update(at, pair);
    assert forall|i: int, j: int| 0 <= i < j < after.len() implies lex_less(
        (#[trigger] after[i]).key,
        (#[trigger] after[j]).key,
    ) by {
        assert(after[i].key == entries[i].key);
        assert(after[j].key == entries[j].key);
    }
    assert forall|key: Seq<char>| #[trigger]
        map_of(after).contains_key(key) == map_of(entries).insert(
            pair.key,
            pair.value,
        ).contains_key(key) by {
        if has_key(after, key) {
            let i = position(after, key);
            assert(entries[i].key == key);
        }
        if key == pair.key {
            assert(after[at].key == key);
        } else if has_key(entries, key) {
            let i = position(entries, key);
            assert(after[i].key == key);
        }
    }
    assert forall|key: Seq<char>| #[trigger] map_of(after).contains_key(key) implies map_of(
        after,
    )[key] == map_of(entries).insert(pair.key, pair.value)[key] by {
        let i = position(after, key);
        lemma_position(after, i);
        lemma_position(entries, i);
    }
    assert(map_of(after) =~= map_of(entries).insert(pair.key, pair.value));
}

/// Taking out a stretch of entries keeps the order and takes their keys out of the map.
pub proof fn lemma_remove_stretch(entries: Seq<Pair>, from: int, to: int)
    requires
        ascending(entries),
        0 <= from <= to <= entries.len(),
    ensures
        ascending(entries.subrange(0, from) + entries.subrange(to, entries.len() as int)),
        forall|key: Seq<char>| #[trigger]
            map_of(
                entries.subrange(0, from) + entries.subrange(to, entries.len() as int),
            ).contains_key(key) <==> (has_key(entries, key) && !(from <= position(entries, key)
                < to)),
        forall|key: Seq<char>| #[trigger]
            map_of(
                entries.subrange(0, from) + entries.subrange(to, entries.len() as int),
            ).contains_key(key) ==> map_of(
                entries.subrange(0, from) + entries.subrange(to, entries.len() as int),
            )[key] == map_of(entries)[key],
{
    let after = entries.subrange(0, from) + entries.subrange(to, entries.len() as int);
    let gap = to - from;
    assert forall|i: int| 0 <= i < after.len() implies #[trigger] after[i] == entries[if i < from {
        i
    } else {
        i + gap
    }] by {}
    assert forall|i: int, j: int| 0 <= i < j < after.len() implies lex_less(
        (#[trigger] after[i]).key,
        (#[trigger] after[j]).key,
    ) by {
        let a = if i < from {
            i
        } else {
            i + gap
        };
        let b = if j < from {
            j
        } else {
            j + gap
        };
        assert(after[i] == entries[a]);
        assert(after[j] == entries[b]);
    }
    assert forall|key: Seq<char>| #[trigger]
        map_of(after).contains_key(key) <==> (has_key(entries, key) && !(from <= position(
            entries,
            key,
        ) < to)) by {
        if has_key(after, key) {
            let i = position(after, key);
            let a = if i < from {
                i
            } else {
                i + gap
            };
            assert(after[i] == entries[a]);
            lemma_position(entries, a);
        }
        if has_key(entries, key) && !(from <= position(entries, key) < to) {
            let a = position(entries, key);
            let i = if a < from {
                a
            } else {
                a - gap
            };
            assert(after[i] == entries[a]);
        }
    }
    assert forall|key: Seq<char>| #[trigger] map_of(after).contains_key(key) implies map_of(
        after,
    )[key] == map_of(entries)[key] by {
        let i = position(after, key);
        let a = if i < from {
            i
        } else {
            i + gap
        };
        assert(after[i] == entries[a]);
        lemma_position(after, i);
        lemma_position(entries, a);
    }
}

/// The entries in a range are one stretch of neighbours.
pub proof fn lemma_stretch(
    entries: Seq<Pair>,
    lower: Seq<char>,
    upper: Seq<char>,
    from: int,
    to: int,
)
    requires
        0 <= from <= to <= entries.len(),
        forall|i: int| 0 <= i < from ==> !in_range((#[trigger] entries[i]).key, lower, upper),
        forall|i: int| from <= i < to ==> in_range((#[trigger] entries[i]).key, lower, upper),
        forall|i: int|
            to <= i < entries.len() ==> !in_range((#[trigger] entries[i]).key, lower, upper),
    ensures
        pairs_between(entries, lower, upper) == entries.subrange(from, to),
    decreases entries.len(),
{
    let n = entries.len() as int;
    if n == 0 {
        assert(entries.subrange(from, to) =~= Seq::<Pair>::empty());
    } else {
        let front = entries.drop_last();
        assert forall|i: int| 0 <= i < front.len() implies #[trigger] front[i] == entries[i] by {}
        if to < n {
            lemma_stretch(front, lower, upper, from, to);
            assert(front.subrange(from, to) =~= entries.subrange(from, to));
        } else if from == n {
            lemma_stretch(front, lower, upper, n - 1, n - 1);
            assert(front.subrange(n - 1, n - 1) =~= entries.subrange(from, to));
        } else {
            lemma_stretch(front, lower, upper, from, n - 1);
            assert(front.subrange(from, n - 1).push(entries.last()) =~= entries.subrange(from, to));
        }
    }
}

/// The entries of a range are the entries whose keys lie in it, in their order.
pub proof fn lemma_pairs_between(entries: Seq<Pair>, lower: Seq<char>, upper: Seq<char>)
    requires
        ascending(entries),
    ensures
        ascending(pairs_between(entries, lower, upper)),
        forall|i: int|
            0 <= i < pairs_between(entries, lower, upper).len() ==> in_range(
                (#[trigger] pairs_between(entries, lower, upper)[i]).key,
                lower,
                upper,
            ) && holds(entries, pairs_between(entries, lower, upper)[i]),
        forall|j: int|
            0 <= j < entries.len() && in_range((#[trigger] entries[j]).key, lower, upper) ==> holds(
                pairs_between(entries, lower, upper),
                entries[j],
            ),
    decreases entries.len(),
{
    let found = pairs_between(entries, lower, upper);
    if entries.len() > 0 {
        let front = entries.drop_last();
        let last = entries.last();
        let before = pairs_between(front, lower, upper);
        assert forall|i: int| 0 <= i < front.len() implies #[trigger] front[i] == entries[i] by {}
        lemma_pairs_between(front, lower, upper);
        assert forall|i: int| 0 <= i < before.len() implies holds(entries, #[trigger] before[i])
            && lex_less(before[i].key, last.key) by {
            let j = choose|j: int| 0 <= j < front.len() && #[trigger] front[j] == before[i];
            assert(entries[j] == before[i]);
        }
        if in_range(last.key, lower, upper) {
            assert(found == before.push(last));
            assert(entries[entries.len() - 1] == last);
            assert forall|i: int| 0 <= i < found.len() implies in_range(
                (#[trigger] found[i]).key,
                lower,
                upper,
            ) && holds(entries, found[i]) by {
                if i < before.len() {
                    assert(found[i] == before[i]);
                }
            }
            assert forall|i: int, j: int| 0 <= i < j < found.len() implies lex_less(
                (#[trigger] found[i]).key,
                (#[trigger] found[j]).key,
            ) by {
                assert(found[i] == before[i]);
                if j < before.len() {
                    assert(found[j] == before[j]);
                }
            }
            assert forall|j: int|
                0 <= j < entries.len() && in_range(
                    (#[trigger] entries[j]).key,
                    lower,
                    upper,
                ) implies holds(found, entries[j]) by {
                if j < front.len() {
                    assert(front[j] == entries[j]);
                    let i = choose|i: int|
                        0 <= i < before.len() && #[trigger] before[i] == front[j];
                    assert(found[i] == entries[j]);
                } else {
                    assert(found[before.len() as int] == entries[j]);
                }
            }
        } else {
            assert(found == before);
            assert forall|j: int|
                0 <= j < entries.len() && in_range(
                    (#[trigger] entries[j]).key,
                    lower,
                    upper,
                ) implies holds(found, entries[j]) by {
                assert(front[j] == entries[j]);
            }
        }
    }
}

/// Deleting a key that is not there changes nothing, and deleting a key
/// twice is the same as deleting it once.
pub proof fn lemma_delete_idempotent(map: Map<Seq<char>, Value>, key: Seq<char>)
    ensures
        !map.contains_key(key) ==> map.remove(key) == map,
        map.remove(key).remove(key) == map.remove(key),
{
    if !map.contains_key(key) {
        assert(map.remove(key) =~= map);
    }
    assert(map.remove(key).remove(key) =~= map.remove(key));
}

/// Ascending entries stand for a map with as many keys as there are entries.
pub proof fn lemma_map_size(entries: Seq<Pair>)
    requires
        ascending(entries),
    ensures
        map_of(entries).dom().finite(),
        map_of(entries).dom().len() == entries.len(),
    decreases entries.len(),
{
    if entries.len() == 0 {
        assert(map_of(entries).dom() =~= Set::<Seq<char>>::empty());
    } else {
        let front = entries.drop_last();
        let last = entries.last();
        assert forall|i: int| 0 <= i < front.len() implies #[trigger] front[i] == entries[i] by {}
        lemma_map_size(front);
        assert(!has_key(front, last.key)) by {
            assert forall|i: int| 0 <= i < front.len() implies (#[trigger] front[i]).key
                != last.key by {
                assert(front[i] == entries[i]);
                lemma_lex_asymmetric(entries[i].key, entries[entries.len() - 1].key);
            }
        }
        assert forall|key: Seq<char>| #[trigger]
            map_of(entries).dom().contains(key) == map_of(front).dom().insert(last.key).contains(
                key,
            ) by {
            if has_key(entries, key) {
                let i = position(entries, key);
                if i < front.len() {
                    assert(front[i].key == key);
                }
            }
            if has_key(front, key) {
                let i = position(front, key);
                assert(entries[i].key == key);
            }
            if key == last.key {
                assert(entries[entries.len() - 1].key == key);
            }
        }
        assert(map_of(entries).dom() =~= map_of(front).dom().insert(last.key));
    }
}

/// The last of ascending entries has the greatest key, and the entries
/// before it stand for the map without that key.
pub proof fn lemma_last_entry(entries: Seq<Pair>)
    requires
        ascending(entries),
        entries.len() > 0,
    ensures
        ascending(entries.drop_last()),
        map_of(entries.drop_last()) == map_of(entries).remove(entries.last().key),
        map_of(entries).contains_key(entries.last().key),
        map_of(entries)[entries.last().key] == entries.last().value,
        forall|key: Seq<char>| #[trigger]
            map_of(entries).contains_key(key) ==> lex_at_most(key, entries.last().key),
{
    let n = entries.len() as int;
    lemma_remove_stretch(entries, n - 1, n);
    lemma_position(entries, n - 1);
    assert(entries.subrange(0, n - 1) + entries.subrange(n, n) =~= entries.drop_last());
    assert forall|key: Seq<char>| #[trigger]
        map_of(entries.drop_last()).contains_key(key) == map_of(entries).remove(
            entries.last().key,
        ).contains_key(key) by {
        if has_key(entries, key) {
            lemma_position(entries, position(entries, key));
        }
    }
    assert(map_of(entries.drop_last()) =~= map_of(entries).remove(entries.last().key));
    assert forall|key: Seq<char>| #[trigger] map_of(entries).contains_key(key) implies lex_at_most(
        key,
        entries.last().key,
    ) by {
        let i = position(entries, key);
        if i < n - 1 {
            assert(lex_less(entries[i].key, entries[n - 1].key));
        }
    }
}

/// Ascending entries are determined by the map they stand for.
pub proof fn lemma_entries_determined(first: Seq<Pair>, second: Seq<Pair>)
    requires
        ascending(first),
        ascending(second),
        map_of(first) == map_of(second),
    ensures
        first == second,
    decreases first.len(),
{
    lemma_map_size(first);
    lemma_map_size(second);
    if first.len() > 0 {
        lemma_last_entry(first);
        lemma_last_entry(second);
        let a = first.last().key;
        let b = second.last().key;
        assert(map_of(second).contains_key(a));
        assert(map_of(first).contains_key(b));
        if a != b {
            if lex_less(a, b) {
                lemma_lex_asymmetric(a, b);
            } else {
                lemma_lex_asymmetric(b, a);
            }
        }
        lemma_entries_determined(first.drop_last(), second.drop_last());
        assert(first.last() == second.last());
        assert(first =~= first.drop_last().push(first.last()));
        assert(second =~= second.drop_last().push(second.last()));
    }
}

/// Once a key was missing, the error stays whatever follows it.
pub proof fn lemma_many_values_fails(
    map: Map<Seq<char>, Value>,
    keys: Seq<Seq<char>>,
    n: int,
    m: int,
)
    requires
        0 <= n <= m,
        many_values(map, keys, n) is Err,
    ensures
        many_values(map, keys, m) == many_values(map, keys, n),
    decreases m - n,
{
    if n < m {
        lemma_many_values_fails(map, keys, n, m - 1);
    }
}

} // verus!
