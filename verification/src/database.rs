//! The store: an ordered map from keys to values of one type. The entries are
//! kept in ascending order of their keys, so that a key is found by bisection
//! and a range is one stretch of neighbours.
//!
//! The entries stand in a vector and not in a `BTreeMap`: vstd specifies the
//! tree only for keys whose order it knows, which it does not for `String`,
//! and it does not specify ranges at all. With text keys Verus accepts the
//! calls and proves nothing of them. The price is that storing and deleting
//! move the entries behind the key.

use crate::entries::{
    all_typed, ascending, formed, has_key, in_range, is_range_of, lemma_absent, lemma_beyond,
    lemma_delete_idempotent, lemma_entries_determined, lemma_insert, lemma_many_values_fails,
    lemma_map_size, lemma_pairs_between, lemma_position, lemma_remove_stretch, lemma_replace,
    lemma_stretch, many_values, map_of, pairs_between, position, typed, values_of, with_pairs,
    without_keys, without_range,
};
use crate::errors::database_errors::{DatabaseError, DatabaseErrorKind, DatabaseErrorType};
use crate::schemas::{
    pairs, texts, values, DatabaseType, KeyValuePair, Pair, QueryResponseType, Response, Value,
    ValueType,
};
use crate::text::{
    lemma_lex_asymmetric, lemma_lex_total, lemma_lex_transitive, lex_at_most, lex_less, text_less,
};
use vstd::prelude::*;
use vstd::string::*;

verus! {

/// Whether the result of an operation of the store is the expected one.
pub open spec fn outcome(
    result: Result<QueryResponseType, String>,
    expected: Result<Response, DatabaseErrorKind>,
) -> bool {
    match expected {
        Ok(response) => result matches Ok(found) && found@ == response,
        Err(kind) => result matches Err(error) && error@ == kind.message(),
    }
}

/// The store.
pub struct Database {
    database_type: DatabaseType,
    storage: Vec<KeyValuePair>,
}

impl View for Database {
    type V = Map<Seq<char>, Value>;

    /// The store as a map from keys to values.
    open spec fn view(&self) -> Map<Seq<char>, Value> {
        map_of(self.entries())
    }
}

impl Database {
    /// The entries of the store, in ascending order of their keys.
    pub closed spec fn entries(&self) -> Seq<Pair> {
        pairs(self.storage@)
    }

    /// The type of value that the store holds.
    pub closed spec fn kind(&self) -> DatabaseType {
        self.database_type
    }

    /// What holds of every store: the keys ascend, so that none occurs twice,
    /// and every value is of the store's type and one that a store can hold.
    #[verifier::type_invariant]
    pub open spec fn wf(&self) -> bool {
        &&& ascending(self.entries())
        &&& typed(self.entries(), self.kind())
        &&& formed(self.entries())
    }

    /// Every value in the store is of the store's type: whatever was stored
    /// with success reads back as a value of that type.
    pub proof fn lemma_type_discipline(&self, key: Seq<char>)
        requires
            self.wf(),
            self@.contains_key(key),
        ensures
            self@[key].tag() == self.kind(),
            self@[key].well_formed(),
    {
        let at = position(self.entries(), key);
        lemma_position(self.entries(), at);
    }

    /// The values of a range stand for keys that ascend strictly, lie in the
    /// range and are keys of the store with those values; and every key of
    /// the store that lies in the range is among them.
    pub proof fn lemma_range_order(&self, lower: Seq<char>, upper: Seq<char>)
        requires
            self.wf(),
        ensures
            is_range_of(pairs_between(self.entries(), lower, upper), self@, lower, upper),
    {
        let entries = self.entries();
        let found = pairs_between(entries, lower, upper);
        lemma_pairs_between(entries, lower, upper);
        assert forall|i: int| 0 <= i < found.len() implies {
            let pair = #[trigger] found[i];
            &&& in_range(pair.key, lower, upper)
            &&& self@.contains_key(pair.key)
            &&& self@[pair.key] == pair.value
        } by {
            let j = choose|j: int| 0 <= j < entries.len() && #[trigger] entries[j] == found[i];
            lemma_position(entries, j);
        }
        assert forall|key: Seq<char>|
            self@.contains_key(key) && in_range(key, lower, upper) implies #[trigger] has_key(
            found,
            key,
        ) by {
            let j = position(entries, key);
            assert(in_range(entries[j].key, lower, upper));
            let i = choose|i: int| 0 <= i < found.len() && #[trigger] found[i] == entries[j];
            assert(found[i].key == key);
        }
    }

    /// The store holds as many keys as it has entries.
    pub proof fn lemma_len(&self)
        requires
            self.wf(),
        ensures
            self@.dom().finite(),
            self@.dom().len() == self.entries().len(),
    {
        lemma_map_size(self.entries());
    }

    /// The entries of a store are whatever ascending sequence of pairs
    /// stands for its map.
    pub proof fn lemma_entries_are(&self, entries: Seq<Pair>)
        requires
            self.wf(),
            ascending(entries),
            map_of(entries) == self@,
        ensures
            self.entries() == entries,
    {
        lemma_entries_determined(self.entries(), entries);
    }

    /// Two stores that hold the same map hold the same entries in the same
    /// order, so that their ranges are the same.
    pub proof fn lemma_entries_determined(&self, other: Database)
        requires
            self.wf(),
            other.wf(),
            self@ == other@,
        ensures
            self.entries() == other.entries(),
    {
        lemma_entries_determined(self.entries(), other.entries());
    }

    /// An empty store for values of the given type.
    pub fn new(database_type: DatabaseType) -> (database: Self)
        ensures
            database.wf(),
            database.kind() == database_type,
            database.entries() == Seq::<Pair>::empty(),
            database@ == Map::<Seq<char>, Value>::empty(),
    {
        let database = Database { database_type, storage: Vec::new() };
        assert(database.entries() =~= Seq::<Pair>::empty());
        assert(database@ =~= Map::<Seq<char>, Value>::empty());
        database
    }

    /// The type of value that the store holds.
    pub fn database_type(&self) -> (database_type: DatabaseType)
        ensures
            database_type == self.kind(),
    {
        self.database_type
    }

    /// Whether the value is of the type that the store holds.
    pub fn check_value_type(&self, value: &ValueType) -> (matches: bool)
        ensures
            matches == (value@.tag() == self.kind()),
            value@.well_formed(),
    {
        value.tag() == self.database_type
    }

    /// The number of entries whose key comes before `key`; the entry with
    /// `key`, if there is one, stands at that position.
    fn lower_bound(&self, key: &str) -> (at: usize)
        ensures
            at <= self.entries().len(),
            forall|i: int| 0 <= i < at ==> lex_less((#[trigger] self.entries()[i]).key, key@),
            forall|i: int|
                at <= i < self.entries().len() ==> lex_at_most(
                    key@,
                    (#[trigger] self.entries()[i]).key,
                ),
    {
        proof {
            use_type_invariant(&*self);
        }
        let ghost entries = self.entries();
        let mut low: usize = 0;
        let mut high: usize = self.storage.len();
        while low < high
            invariant
                self.wf(),
                entries == self.entries(),
                entries.len() == self.storage.len(),
                low <= high <= entries.len(),
                forall|i: int| 0 <= i < low ==> lex_less((#[trigger] entries[i]).key, key@),
                forall|i: int|
                    high <= i < entries.len() ==> lex_at_most(key@, (#[trigger] entries[i]).key),
            decreases high - low,
        {
            let middle = low + (high - low) / 2;
            assert(entries[middle as int] == self.storage@[middle as int]@);
            if text_less(self.storage[middle].key.as_str(), key) {
                assert forall|i: int| 0 <= i < middle + 1 implies lex_less(
                    (#[trigger] entries[i]).key,
                    key@,
                ) by {
                    if i < middle {
                        lemma_lex_transitive(entries[i].key, entries[middle as int].key, key@);
                    }
                }
                low = middle + 1;
            } else {
                assert forall|i: int| middle <= i < entries.len() implies lex_at_most(
                    key@,
                    (#[trigger] entries[i]).key,
                ) by {
                    lemma_lex_total(entries[middle as int].key, key@);
                    if middle < i && key@ != entries[middle as int].key {
                        lemma_lex_transitive(key@, entries[middle as int].key, entries[i].key);
                    }
                }
                high = middle;
            }
        }
        low
    }

    /// Whether the entry at `at`, the lower bound of `key`, has that key.
    fn holds_at(&self, at: usize, key: &str) -> (found: bool)
        requires
            self.wf(),
            at <= self.entries().len(),
            forall|i: int| 0 <= i < at ==> lex_less((#[trigger] self.entries()[i]).key, key@),
            forall|i: int|
                at <= i < self.entries().len() ==> lex_at_most(
                    key@,
                    (#[trigger] self.entries()[i]).key,
                ),
        ensures
            found == self@.contains_key(key@),
            found ==> at < self.entries().len() && self.entries()[at as int].key == key@
                && self@[key@] == self.entries()[at as int].value,
            !found ==> (at < self.entries().len() ==> lex_less(
                key@,
                self.entries()[at as int].key,
            )),
    {
        let ghost entries = self.entries();
        if at < self.storage.len() {
            assert(entries[at as int] == self.storage@[at as int]@);
            if !text_less(key, self.storage[at].key.as_str()) {
                proof {
                    lemma_position(entries, at as int);
                }
                return true;
            }
        }
        proof {
            lemma_absent(entries, key@, at as int);
        }
        false
    }

    /// Gets the value of a key.
    pub fn get(&self, key: &str) -> (result: Result<QueryResponseType, String>)
        ensures
            outcome(
                result,
                if self@.contains_key(key@) {
                    Ok(Response::GET_OK(self@[key@]))
                } else {
                    Err(DatabaseErrorKind::KeyNotFound(key@))
                },
            ),
            result matches Ok(QueryResponseType::GET_OK(value)) ==> value@.tag() == self.kind()
                && value@.well_formed(),
    {
        proof {
            use_type_invariant(&*self);
            if self@.contains_key(key@) {
                self.lemma_type_discipline(key@);
            }
        }
        let at = self.lower_bound(key);
        if self.holds_at(at, key) {
            assert(self.entries()[at as int] == self.storage@[at as int]@);
            return Ok(QueryResponseType::GET_OK(self.storage[at].value.duplicate()));
        }
        database_error(DatabaseErrorType::KeyNotFound(String::from_str(key)))
    }

    /// Gets the values of all keys from `key_lower` to `key_upper`, both
    /// included, in ascending order of the keys.
    pub fn get_range(&self, key_lower: String, key_upper: String) -> (result: Result<
        QueryResponseType,
        String,
    >)
        ensures
            outcome(
                result,
                if lex_less(key_upper@, key_lower@) {
                    Err(DatabaseErrorKind::InvalidRangeOrder)
                } else {
                    Ok(
                        Response::GET_RANGE_OK(
                            values_of(pairs_between(self.entries(), key_lower@, key_upper@)),
                        ),
                    )
                },
            ),
            is_range_of(
                pairs_between(self.entries(), key_lower@, key_upper@),
                self@,
                key_lower@,
                key_upper@,
            ),
    {
        proof {
            use_type_invariant(&*self);
            self.lemma_range_order(key_lower@, key_upper@);
        }
        if text_less(key_upper.as_str(), key_lower.as_str()) {
            return database_error(DatabaseErrorType::InvalidRangeOrder);
        }
        let from = self.lower_bound(key_lower.as_str());
        let to = self.stretch_end(from, key_lower.as_str(), key_upper.as_str());
        let ghost entries = self.entries();
        let mut found: Vec<ValueType> = Vec::new();
        let mut i: usize = from;
        assert(values(found@) =~= values_of(entries.subrange(from as int, from as int)));
        while i < to
            invariant
                from <= i <= to <= self.storage.len(),
                entries == pairs(self.storage@),
                values(found@) == values_of(entries.subrange(from as int, i as int)),
            decreases to - i,
        {
            let ghost before = found@;
            found.push(self.storage[i].value.duplicate());
            assert(values(found@) =~= values_of(entries.subrange(from as int, i + 1))) by {
                assert(values(found@) =~= values(before).push(self.storage@[i as int].value@));
                assert(entries[i as int] == self.storage@[i as int]@);
            }
            i += 1;
        }
        Ok(QueryResponseType::GET_RANGE_OK(found))
    }

    /// Where the stretch of entries in the range ends, given where it starts.
    fn stretch_end(&self, from: usize, lower: &str, upper: &str) -> (to: usize)
        requires
            self.wf(),
            !lex_less(upper@, lower@),
            from <= self.entries().len(),
            forall|i: int| 0 <= i < from ==> lex_less((#[trigger] self.entries()[i]).key, lower@),
            forall|i: int|
                from <= i < self.entries().len() ==> lex_at_most(
                    lower@,
                    (#[trigger] self.entries()[i]).key,
                ),
        ensures
            from <= to <= self.entries().len(),
            pairs_between(self.entries(), lower@, upper@) == self.entries().subrange(
                from as int,
                to as int,
            ),
            forall|i: int|
                0 <= i < self.entries().len() ==> (from <= i < to <==> in_range(
                    (#[trigger] self.entries()[i]).key,
                    lower@,
                    upper@,
                )),
    {
        let ghost entries = self.entries();
        let mut to: usize = from;
        while to < self.storage.len() && !text_less(upper, self.storage[to].key.as_str())
            invariant
                from <= to <= self.storage.len(),
                entries == pairs(self.storage@),
                forall|i: int| from <= i < to ==> lex_at_most((#[trigger] entries[i]).key, upper@),
            decreases self.storage.len() - to,
        {
            proof {
                assert(entries[to as int] == self.storage@[to as int]@);
                lemma_lex_total(upper@, entries[to as int].key);
            }
            to += 1;
        }
        proof {
            if to < entries.len() {
                assert(entries[to as int] == self.storage@[to as int]@);
            }
            lemma_beyond(entries, upper@, to as int);
            assert forall|i: int| 0 <= i < from implies !in_range(
                (#[trigger] entries[i]).key,
                lower@,
                upper@,
            ) by {
                lemma_lex_asymmetric(entries[i].key, lower@);
            }
            assert forall|i: int| to <= i < entries.len() implies !in_range(
                (#[trigger] entries[i]).key,
                lower@,
                upper@,
            ) by {
                lemma_lex_asymmetric(upper@, entries[i].key);
            }
            lemma_stretch(entries, lower@, upper@, from as int, to as int);
        }
        to
    }

    /// Gets the values of the keys, in the order of the keys. Fails on the
    /// first key that is missing.
    pub fn get_many(&self, keys: Vec<&str>) -> (result: Result<QueryResponseType, String>)
        ensures
            outcome(
                result,
                match many_values(self@, texts(keys@), keys@.len() as int) {
                    Ok(found) => Ok(Response::GET_MANY_OK(found)),
                    Err(kind) => Err(kind),
                },
            ),
    {
        proof {
            use_type_invariant(&*self);
        }
        let ghost wanted = texts(keys@);
        let mut found: Vec<ValueType> = Vec::new();
        let mut i: usize = 0;
        assert(values(found@) =~= Seq::<Value>::empty());
        while i < keys.len()
            invariant
                self.wf(),
                i <= keys.len(),
                wanted == texts(keys@),
                many_values(self@, wanted, i as int) == Ok::<Seq<Value>, DatabaseErrorKind>(
                    values(found@),
                ),
            decreases keys.len() - i,
        {
            let key = keys[i];
            assert(wanted[i as int] == key@);
            let at = self.lower_bound(key);
            if self.holds_at(at, key) {
                let ghost before = found@;
                assert(self.entries()[at as int] == self.storage@[at as int]@);
                found.push(self.storage[at].value.duplicate());
                assert(values(found@) =~= values(before).push(self@[key@]));
            } else {
                proof {
                    assert(many_values(self@, wanted, i + 1) is Err);
                    lemma_many_values_fails(self@, wanted, i + 1, keys@.len() as int);
                }
                return database_error(DatabaseErrorType::KeyNotFound(String::from_str(key)));
            }
            i += 1;
        }
        Ok(QueryResponseType::GET_MANY_OK(found))
    }

    /// Takes a key out of the store, if it is there.
    fn discard(&mut self, key: &str)
        ensures
            final(self).wf(),
            final(self).kind() == old(self).kind(),
            final(self)@ == old(self)@.remove(key@),
    {
        proof {
            use_type_invariant(&*self);
        }
        let at = self.lower_bound(key);
        let found = self.holds_at(at, key);
        let ghost before = self.entries();
        if found {
            let mut storage: Vec<KeyValuePair> = Vec::new();
            std::mem::swap(&mut storage, &mut self.storage);
            storage.remove(at);
            proof {
                let after = pairs(storage@);
                assert(after =~= before.subrange(0, at as int) + before.subrange(
                    at + 1,
                    before.len() as int,
                ));
                lemma_remove_stretch(before, at as int, at + 1);
                lemma_position(before, at as int);
                assert forall|k: Seq<char>| #[trigger]
                    map_of(after).contains_key(k) == map_of(before).remove(key@).contains_key(
                        k,
                    ) by {
                    if has_key(before, k) {
                        lemma_position(before, position(before, k));
                    }
                }
                assert(map_of(after) =~= map_of(before).remove(key@));
                assert forall|i: int| 0 <= i < after.len() implies (#[trigger] after[i]).value.tag()
                    == self.kind() && after[i].value.well_formed() by {
                    assert(after[i] == before[if i < at {
                        i
                    } else {
                        i + 1
                    }]);
                }
            }
            self.storage = storage;
        } else {
            assert(map_of(before) =~= map_of(before).remove(key@));
        }
    }

    /// Deletes a key. Nothing changes if the key is not in the store.
    pub fn del(&mut self, key: &str) -> (result: Result<QueryResponseType, String>)
        ensures
            final(self).wf(),
            final(self).kind() == old(self).kind(),
            final(self)@ == old(self)@.remove(key@),
            !old(self)@.contains_key(key@) ==> final(self)@ == old(self)@,
            outcome(result, Ok(Response::DEL_OK)),
    {
        proof {
            lemma_delete_idempotent(self@, key@);
        }
        self.discard(key);
        Ok(QueryResponseType::DEL_OK)
    }

    /// Deletes all keys from `key_lower` to `key_upper`, both included.
    pub fn del_range(&mut self, key_lower: String, key_upper: String) -> (result: Result<
        QueryResponseType,
        String,
    >)
        ensures
            final(self).wf(),
            final(self).kind() == old(self).kind(),
            lex_less(key_upper@, key_lower@) ==> final(self)@ == old(self)@ && outcome(
                result,
                Err(DatabaseErrorKind::InvalidRangeOrder),
            ),
            !lex_less(key_upper@, key_lower@) ==> final(self)@ == without_range(
                old(self)@,
                key_lower@,
                key_upper@,
            ) && outcome(result, Ok(Response::DEL_RANGE_OK)),
    {
        proof {
            use_type_invariant(&*self);
        }
        if text_less(key_upper.as_str(), key_lower.as_str()) {
            return database_error(DatabaseErrorType::InvalidRangeOrder);
        }
        let from = self.lower_bound(key_lower.as_str());
        let to = self.stretch_end(from, key_lower.as_str(), key_upper.as_str());
        let ghost before = self.entries();
        let ghost stored = self.storage@;
        let mut storage: Vec<KeyValuePair> = Vec::new();
        std::mem::swap(&mut storage, &mut self.storage);
        let mut tail = storage.split_off(to);
        storage.truncate(from);
        storage.append(&mut tail);
        proof {
            let after = pairs(storage@);
            assert(storage@ =~= stored.subrange(0, from as int) + stored.subrange(
                to as int,
                stored.len() as int,
            ));
            assert(after =~= before.subrange(0, from as int) + before.subrange(
                to as int,
                before.len() as int,
            ));
            lemma_remove_stretch(before, from as int, to as int);
            assert forall|k: Seq<char>| #[trigger]
                map_of(after).contains_key(k) == without_range(
                    map_of(before),
                    key_lower@,
                    key_upper@,
                ).contains_key(k) by {
                if has_key(before, k) {
                    lemma_position(before, position(before, k));
                }
            }
            assert(map_of(after) =~= without_range(map_of(before), key_lower@, key_upper@));
            assert forall|i: int| 0 <= i < after.len() implies (#[trigger] after[i]).value.tag()
                == self.kind() && after[i].value.well_formed() by {
                assert(after[i] == before[if i < from {
                    i
                } else {
                    i + (to - from)
                }]);
            }
        }
        self.storage = storage;
        Ok(QueryResponseType::DEL_RANGE_OK)
    }

    /// Deletes each of the keys. Keys that are not in the store are passed over.
    pub fn del_many(&mut self, keys: Vec<&str>) -> (result: Result<QueryResponseType, String>)
        ensures
            final(self).wf(),
            final(self).kind() == old(self).kind(),
            final(self)@ == without_keys(old(self)@, texts(keys@), keys@.len() as int),
            outcome(result, Ok(Response::DEL_MANY_OK)),
    {
        proof {
            use_type_invariant(&*self);
        }
        let ghost wanted = texts(keys@);
        let mut i: usize = 0;
        while i < keys.len()
            invariant
                self.wf(),
                self.kind() == old(self).kind(),
                i <= keys.len(),
                wanted == texts(keys@),
                self@ == without_keys(old(self)@, wanted, i as int),
            decreases keys.len() - i,
        {
            assert(wanted[i as int] == keys@[i as int]@);
            self.discard(keys[i]);
            i += 1;
        }
        Ok(QueryResponseType::DEL_MANY_OK)
    }

    /// Puts a value of the store's type under a key, over any value that was there.
    fn store(&mut self, key: String, value: ValueType)
        requires
            value@.tag() == old(self).kind(),
            value@.well_formed(),
        ensures
            final(self).wf(),
            final(self).kind() == old(self).kind(),
            final(self)@ == old(self)@.insert(key@, value@),
    {
        proof {
            use_type_invariant(&*self);
        }
        let at = self.lower_bound(key.as_str());
        let found = self.holds_at(at, key.as_str());
        let ghost before = self.entries();
        let pair = KeyValuePair { key, value };
        let ghost added = pair@;
        let mut storage: Vec<KeyValuePair> = Vec::new();
        std::mem::swap(&mut storage, &mut self.storage);
        if found {
            storage.set(at, pair);
            proof {
                assert(pairs(storage@) =~= before.update(at as int, added));
                lemma_replace(before, at as int, added);
            }
        } else {
            storage.insert(at, pair);
            proof {
                assert(pairs(storage@) =~= before.insert(at as int, added));
                lemma_insert(before, at as int, added);
            }
        }
        self.storage = storage;
    }

    /// Stores a value under a key. A value that is not of the store's type
    /// is refused, and the store stays as it is.
    pub fn set(&mut self, key: &str, value: ValueType) -> (result: Result<
        QueryResponseType,
        String,
    >)
        ensures
            final(self).wf(),
            final(self).kind() == old(self).kind(),
            value@.tag() == old(self).kind() ==> final(self)@ == old(self)@.insert(key@, value@)
                && outcome(result, Ok(Response::SET_OK)),
            value@.tag() != old(self).kind() ==> final(self)@ == old(self)@ && outcome(
                result,
                Err(DatabaseErrorKind::WrongValueType),
            ),
    {
        proof {
            use_type_invariant(&*self);
        }
        if !self.check_value_type(&value) {
            return database_error(DatabaseErrorType::WrongValueType);
        }
        self.store(String::from_str(key), value);
        Ok(QueryResponseType::SET_OK)
    }

    /// Stores the pairs, one after the other. If any value is not of the
    /// store's type, none of the pairs is stored.
    #[verifier::loop_isolation(false)]
    pub fn set_many(&mut self, key_value_pairs: Vec<KeyValuePair>) -> (result: Result<
        QueryResponseType,
        String,
    >)
        ensures
            final(self).wf(),
            final(self).kind() == old(self).kind(),
            all_typed(pairs(key_value_pairs@), old(self).kind()) ==> final(self)@ == with_pairs(
                old(self)@,
                pairs(key_value_pairs@),
                key_value_pairs@.len() as int,
            ) && outcome(result, Ok(Response::SET_MANY_OK)),
            !all_typed(pairs(key_value_pairs@), old(self).kind()) ==> final(self)@ == old(self)@
                && outcome(result, Err(DatabaseErrorKind::WrongValueType)),
    {
        proof {
            use_type_invariant(&*self);
        }
        let ghost list = pairs(key_value_pairs@);
        let mut i: usize = 0;
        while i < key_value_pairs.len()
            invariant
                i <= key_value_pairs.len(),
                list == pairs(key_value_pairs@),
                forall|j: int|
                    0 <= j < i ==> (#[trigger] list[j]).value.tag() == self.kind()
                        && list[j].value.well_formed(),
            decreases key_value_pairs.len() - i,
        {
            assert(list[i as int] == key_value_pairs@[i as int]@);
            if !self.check_value_type(&key_value_pairs[i].value) {
                return database_error(DatabaseErrorType::WrongValueType);
            }
            i += 1;
        }
        let ghost given = key_value_pairs@;
        for pair in it: key_value_pairs
            invariant
                it.seq() == given,
                list == pairs(given),
                self.wf(),
                self.kind() == old(self).kind(),
                all_typed(list, self.kind()),
                formed(list),
                self@ == with_pairs(old(self)@, list, it.index()),
        {
            assert(list[it.index()] == pair@);
            self.store(pair.key, pair.value);
        }
        Ok(QueryResponseType::SET_MANY_OK)
    }

    /// Deletes every entry.
    pub fn clear(&mut self) -> (result: Result<QueryResponseType, String>)
        ensures
            final(self).wf(),
            final(self).kind() == old(self).kind(),
            final(self)@ == Map::<Seq<char>, Value>::empty(),
            final(self).entries() == Seq::<Pair>::empty(),
            outcome(result, Ok(Response::CLEAR_OK)),
    {
        self.storage = Vec::new();
        assert(self.entries() =~= Seq::<Pair>::empty());
        assert(self@ =~= Map::<Seq<char>, Value>::empty());
        Ok(QueryResponseType::CLEAR_OK)
    }

    /// The number of entries, which is the number of keys.
    pub fn len(&self) -> (result: Result<QueryResponseType, String>)
        ensures
            outcome(result, Ok(Response::LEN_OK(self.entries().len()))),
            self.entries().len() == self@.dom().len(),
    {
        proof {
            use_type_invariant(self);
            self.lemma_len();
        }
        Ok(QueryResponseType::LEN_OK(self.storage.len()))
    }

    /// Whether the key is in the store.
    pub fn contains(&self, key: &str) -> (result: Result<QueryResponseType, String>)
        ensures
            outcome(result, Ok(Response::EXISTS_OK(self@.contains_key(key@)))),
    {
        proof {
            use_type_invariant(&*self);
        }
        let at = self.lower_bound(key);
        Ok(QueryResponseType::EXISTS_OK(self.holds_at(at, key)))
    }
}

/// The failure of an operation of the store, as it is reported.
pub fn database_error(error_type: DatabaseErrorType) -> (result: Result<QueryResponseType, String>)
    ensures
        result matches Err(error) && error@ == error_type@.message(),
{
    Err(DatabaseError { error_type }.to_string())
}

} // verus!
