//! The state that all connections share: the store, the password and the
//! clients that have authenticated. Requests pass the authentication gate
//! here before they reach the store.

use crate::database::{outcome, Database};
use crate::entries::{
    all_typed, many_values, pairs_between, values_of, with_pairs, without_keys, without_range,
};
use crate::errors::authentication_errors::{AuthenticationError, AuthenticationErrorType};
use crate::errors::database_errors::DatabaseErrorKind;
use crate::parser::stores_named_keys;
use crate::schemas::{DatabaseType, Pair, QueryRequest, QueryResponseType, Request, Response, Value};
use crate::text::{lex_less, same_text};
use vstd::prelude::*;
use vstd::string::*;

verus! {

/// The addresses that a list of strings holds.
pub open spec fn addresses(list: Seq<String>) -> Set<Seq<char>> {
    Set::new(
        |address: Seq<char>|
            exists|i: int| 0 <= i < list.len() && (#[trigger] list[i])@ == address,
    )
}

/// Whether no address occurs twice in the list.
pub open spec fn distinct(list: Seq<String>) -> bool {
    forall|i: int, j: int|
        0 <= i < j < list.len() ==> (#[trigger] list[i])@ != (#[trigger] list[j])@
}

/// Whether `result` reports the given authentication error.
pub open spec fn refused(
    result: Result<QueryResponseType, String>,
    error_type: AuthenticationErrorType,
) -> bool {
    result matches Err(error) && error@ == error_type.message()
}

/// What the store answers to a request of a client that has passed the
/// authentication gate.
pub open spec fn response_to(store: Database, request: Request) -> Result<
    Response,
    DatabaseErrorKind,
> {
    match request {
        Request::GET(key) => if store@.contains_key(key) {
            Ok(Response::GET_OK(store@[key]))
        } else {
            Err(DatabaseErrorKind::KeyNotFound(key))
        },
        Request::GET_RANGE { key_lower, key_upper } => if lex_less(key_upper, key_lower) {
            Err(DatabaseErrorKind::InvalidRangeOrder)
        } else {
            Ok(
                Response::GET_RANGE_OK(
                    values_of(pairs_between(store.entries(), key_lower, key_upper)),
                ),
            )
        },
        Request::GET_MANY(keys) => match many_values(store@, keys, keys.len() as int) {
            Ok(found) => Ok(Response::GET_MANY_OK(found)),
            Err(kind) => Err(kind),
        },
        Request::DEL(_) => Ok(Response::DEL_OK),
        Request::DEL_RANGE { key_lower, key_upper } => if lex_less(key_upper, key_lower) {
            Err(DatabaseErrorKind::InvalidRangeOrder)
        } else {
            Ok(Response::DEL_RANGE_OK)
        },
        Request::DEL_MANY(_) => Ok(Response::DEL_MANY_OK),
        Request::SET(pair) => if pair.value.tag() == store.kind() {
            Ok(Response::SET_OK)
        } else {
            Err(DatabaseErrorKind::WrongValueType)
        },
        Request::SET_MANY(list) => if all_typed(list, store.kind()) {
            Ok(Response::SET_MANY_OK)
        } else {
            Err(DatabaseErrorKind::WrongValueType)
        },
        Request::AUTH(_) => Ok(Response::AUTH_OK),
        Request::CLEAR => Ok(Response::CLEAR_OK),
        Request::LEN => Ok(Response::LEN_OK(store.entries().len())),
        Request::PING => Ok(Response::PING_OK),
        Request::EXISTS(key) => Ok(Response::EXISTS_OK(store@.contains_key(key))),
        Request::SHUTDOWN => Ok(Response::SHUTDOWN_OK),
    }
}

/// Whether the store `after` is what a request of a client that has passed
/// the authentication gate makes of the store `before`.
pub open spec fn store_after(before: Database, request: Request, after: Database) -> bool {
    &&& after.wf()
    &&& after.kind() == before.kind()
    &&& match request {
        Request::DEL(key) => after@ == before@.remove(key),
        Request::DEL_RANGE { key_lower, key_upper } => if lex_less(key_upper, key_lower) {
            after@ == before@
        } else {
            after@ == without_range(before@, key_lower, key_upper)
        },
        Request::DEL_MANY(keys) => after@ == without_keys(before@, keys, keys.len() as int),
        Request::SET(pair) => if pair.value.tag() == before.kind() {
            after@ == before@.insert(pair.key, pair.value)
        } else {
            after@ == before@
        },
        Request::SET_MANY(list) => if all_typed(list, before.kind()) {
            after@ == with_pairs(before@, list, list.len() as int)
        } else {
            after@ == before@
        },
        Request::CLEAR => after@ == Map::<Seq<char>, Value>::empty() && after.entries()
            == Seq::<Pair>::empty(),
        _ => after == before,
    }
}

/// What a client at `address` is answered: the result, or the text of the error.
pub open spec fn reply_to(state: State, address: Seq<char>, request: Request) -> Result<
    Response,
    Seq<char>,
> {
    match request {
        Request::AUTH(password) => if password == state.secret() {
            Ok(Response::AUTH_OK)
        } else {
            Err(AuthenticationErrorType::AuthenticationFailed.message())
        },
        _ => if state.sessions().contains(address) {
            match response_to(state.db(), request) {
                Ok(response) => Ok(response),
                Err(kind) => Err(kind.message()),
            }
        } else {
            Err(AuthenticationErrorType::NotAuthenticated.message())
        },
    }
}

/// Whether the state `after` is what a request of the client at `address`
/// makes of the state `before`. Only a matching password changes who has
/// authenticated, and only a client that has authenticated changes the store.
pub open spec fn state_after(
    before: State,
    address: Seq<char>,
    request: Request,
    after: State,
) -> bool {
    &&& after.wf()
    &&& after.secret() == before.secret()
    &&& after.kind() == before.kind()
    &&& match request {
        Request::AUTH(password) => {
            &&& after.db() == before.db()
            &&& after.sessions() == if password == before.secret() {
                before.sessions().insert(address)
            } else {
                before.sessions()
            }
        },
        _ => {
            &&& after.sessions() == before.sessions()
            &&& if before.sessions().contains(address) {
                store_after(before.db(), request, after.db())
            } else {
                after.db() == before.db()
            }
        },
    }
}

/// Whether `result` is the answer expected.
pub open spec fn answers(
    result: Result<QueryResponseType, String>,
    expected: Result<Response, Seq<char>>,
) -> bool {
    match expected {
        Ok(response) => result matches Ok(found) && found@ == response,
        Err(message) => result matches Err(error) && error@ == message,
    }
}

/// The authentication gate: a request other than `AUTH` from a client that
/// has not authenticated is refused as not authenticated, and neither the
/// store nor the list of authenticated clients changes.
pub proof fn lemma_authentication_gate(
    before: State,
    address: Seq<char>,
    request: Request,
    after: State,
)
    requires
        state_after(before, address, request, after),
        !before.sessions().contains(address),
        !(request is AUTH),
    ensures
        reply_to(before, address, request) == Err::<Response, Seq<char>>(
            AuthenticationErrorType::NotAuthenticated.message(),
        ),
        after.db() == before.db(),
        after.db()@ == before.db()@,
        after.sessions() == before.sessions(),
        !after.sessions().contains(address),
{
}

/// A set of pairs of which one has the wrong type stores nothing.
pub proof fn lemma_set_many_atomic(
    before: State,
    address: Seq<char>,
    list: Seq<Pair>,
    after: State,
)
    requires
        state_after(before, address, Request::SET_MANY(list), after),
        !all_typed(list, before.db().kind()),
    ensures
        after.db()@ == before.db()@,
        reply_to(before, address, Request::SET_MANY(list)) is Err,
{
}

/// Whether no key of the map is empty.
pub open spec fn named_keys(map: Map<Seq<char>, Value>) -> bool {
    forall|key: Seq<char>| #[trigger] map.contains_key(key) ==> key.len() > 0
}

/// Storing pairs under keys that are not empty leaves no empty key in the map.
pub proof fn lemma_with_pairs_named(map: Map<Seq<char>, Value>, list: Seq<Pair>, n: int)
    requires
        named_keys(map),
        forall|i: int| 0 <= i < list.len() ==> (#[trigger] list[i]).key.len() > 0,
        0 <= n <= list.len(),
    ensures
        named_keys(with_pairs(map, list, n)),
    decreases n,
{
    if n > 0 {
        lemma_with_pairs_named(map, list, n - 1);
        assert(list[n - 1].key.len() > 0);
    }
}

/// Deleting keys leaves no empty key in a map that had none.
pub proof fn lemma_without_keys_named(map: Map<Seq<char>, Value>, keys: Seq<Seq<char>>, n: int)
    requires
        named_keys(map),
    ensures
        named_keys(without_keys(map, keys, n)),
    decreases n,
{
    if n > 0 {
        lemma_without_keys_named(map, keys, n - 1);
    }
}

/// The keys of the store stay non-empty: a request that stores nothing
/// under the empty key leaves a store without an empty key as one.
pub proof fn lemma_keys_stay_named(
    before: State,
    address: Seq<char>,
    request: Request,
    after: State,
)
    requires
        named_keys(before.db()@),
        stores_named_keys(request),
        state_after(before, address, request, after),
    ensures
        named_keys(after.db()@),
{
    if !(request is AUTH) && before.sessions().contains(address) {
        match request {
            Request::SET_MANY(list) => {
                if all_typed(list, before.db().kind()) {
                    lemma_with_pairs_named(before.db()@, list, list.len() as int);
                }
            },
            Request::DEL_MANY(keys) => {
                lemma_without_keys_named(before.db()@, keys, keys.len() as int);
            },
            _ => {},
        }
    }
}

/// The state that all connections share. The clients that have authenticated
/// are a list without repetitions and not a `HashMap`: vstd specifies the
/// table only for keys whose hashing it knows, which it does not for `String`.
pub struct State {
    db: Database,
    auth_table: Vec<String>,
    password: String,
    database_type: DatabaseType,
}

impl State {
    /// The store.
    pub closed spec fn db(&self) -> Database {
        self.db
    }

    /// The addresses of the clients that have authenticated.
    pub closed spec fn sessions(&self) -> Set<Seq<char>> {
        addresses(self.auth_table@)
    }

    /// The password that clients authenticate with.
    pub closed spec fn secret(&self) -> Seq<char> {
        self.password@
    }

    /// The type of value that the store holds.
    pub closed spec fn kind(&self) -> DatabaseType {
        self.database_type
    }

    /// What holds of every state: the store is well formed and of the type
    /// that the state was made for, and no client is listed twice.
    #[verifier::type_invariant]
    pub closed spec fn wf(&self) -> bool {
        &&& self.db.wf()
        &&& self.db.kind() == self.database_type
        &&& distinct(self.auth_table@)
    }

    /// What well-formedness says of the store.
    pub proof fn lemma_wf(&self)
        requires
            self.wf(),
        ensures
            self.db().wf(),
            self.db().kind() == self.kind(),
    {
    }

    /// A state with an empty store of the given type and no authenticated client.
    pub fn new(database_type: DatabaseType, password: String) -> (state: Self)
        ensures
            state.wf(),
            state.kind() == database_type,
            state.secret() == password@,
            state.sessions() == Set::<Seq<char>>::empty(),
            state.db()@ == Map::<Seq<char>, Value>::empty(),
            state.db().entries() == Seq::<Pair>::empty(),
    {
        let db = Database::new(database_type);
        let state = State { db, auth_table: Vec::new(), password, database_type };
        assert(state.sessions() =~= Set::<Seq<char>>::empty());
        state
    }

    /// The type of value that the store holds.
    pub fn database_type(&self) -> (database_type: DatabaseType)
        ensures
            database_type == self.kind(),
    {
        self.database_type
    }

    /// The position of an address in the list of authenticated clients.
    fn find(&self, address: &str) -> (at: Option<usize>)
        ensures
            match at {
                Some(i) => i < self.auth_table@.len() && self.auth_table@[i as int]@ == address@,
                None => !self.sessions().contains(address@),
            },
            at is Some ==> self.sessions().contains(address@),
    {
        let mut i: usize = 0;
        while i < self.auth_table.len()
            invariant
                i <= self.auth_table.len(),
                forall|j: int| 0 <= j < i ==> (#[trigger] self.auth_table@[j])@ != address@,
            decreases self.auth_table.len() - i,
        {
            if same_text(self.auth_table[i].as_str(), address) {
                return Some(i);
            }
            i += 1;
        }
        None
    }

    /// Whether the client at `address` has authenticated.
    pub fn is_authenticated(&self, address: String) -> (known: bool)
        ensures
            known == self.sessions().contains(address@),
    {
        self.find(address.as_str()).is_some()
    }

    /// Forgets that the client at `address` has authenticated. Nothing
    /// changes if it had not.
    pub fn deauthenticate(&mut self, address: &str)
        ensures
            final(self).wf(),
            final(self).sessions() == old(self).sessions().remove(address@),
            final(self).db() == old(self).db(),
            final(self).secret() == old(self).secret(),
            final(self).kind() == old(self).kind(),
    {
        proof {
            use_type_invariant(&*self);
        }
        let ghost before = self.auth_table@;
        match self.find(address) {
            Some(at) => {
                let mut table: Vec<String> = Vec::new();
                std::mem::swap(&mut table, &mut self.auth_table);
                table.remove(at);
                proof {
                    let after = table@;
                    assert forall|i: int| 0 <= i < after.len() implies #[trigger] after[i]
                        == before[if i < at {
                        i
                    } else {
                        i + 1
                    }] by {}
                    assert forall|a: Seq<char>| #[trigger]
                        addresses(after).contains(a) == addresses(before).remove(
                            address@,
                        ).contains(a) by {
                        if addresses(after).contains(a) {
                            let i = choose|i: int|
                                0 <= i < after.len() && (#[trigger] after[i])@ == a;
                            let j = if i < at {
                                i
                            } else {
                                i + 1
                            };
                            assert(before[j]@ == a);
                        }
                        if addresses(before).contains(a) && a != address@ {
                            let j = choose|j: int|
                                0 <= j < before.len() && (#[trigger] before[j])@ == a;
                            let i = if j < at {
                                j
                            } else {
                                j - 1
                            };
                            assert(after[i]@ == a);
                        }
                    }
                    assert(addresses(after) =~= addresses(before).remove(address@));
                }
                self.auth_table = table;
            },
            None => {
                assert(self.sessions() =~= self.sessions().remove(address@));
            },
        }
    }

    /// Authenticates the client at `address` if the password is the server's.
    pub fn authenticate(&mut self, address: &str, given_password: &str) -> (result: Result<
        QueryResponseType,
        String,
    >)
        ensures
            final(self).wf(),
            final(self).db() == old(self).db(),
            final(self).secret() == old(self).secret(),
            final(self).kind() == old(self).kind(),
            given_password@ == old(self).secret() ==> final(self).sessions() == old(
                self,
            ).sessions().insert(address@) && outcome(result, Ok(Response::AUTH_OK)),
            given_password@ != old(self).secret() ==> final(self).sessions() == old(
                self,
            ).sessions() && refused(result, AuthenticationErrorType::AuthenticationFailed),
    {
        proof {
            use_type_invariant(&*self);
        }
        if same_text(given_password, self.password.as_str()) {
            let ghost before = self.auth_table@;
            if self.find(address).is_none() {
                let mut table: Vec<String> = Vec::new();
                std::mem::swap(&mut table, &mut self.auth_table);
                table.push(String::from_str(address));
                proof {
                    let after = table@;
                    assert forall|a: Seq<char>| #[trigger]
                        addresses(after).contains(a) == addresses(before).insert(
                            address@,
                        ).contains(a) by {
                        if addresses(before).contains(a) {
                            let j = choose|j: int|
                                0 <= j < before.len() && (#[trigger] before[j])@ == a;
                            assert(after[j]@ == a);
                        }
                        if a == address@ {
                            assert(after[before.len() as int]@ == a);
                        }
                    }
                    assert(addresses(after) =~= addresses(before).insert(address@));
                    assert forall|i: int, j: int| 0 <= i < j < after.len() implies (
                    #[trigger] after[i])@ != (#[trigger] after[j])@ by {
                        if j == before.len() {
                            assert(before[i]@ != address@);
                        }
                    }
                }
                self.auth_table = table;
            } else {
                assert(self.sessions() =~= self.sessions().insert(address@));
            }
            return Ok(QueryResponseType::AUTH_OK);
        }
        auth_error(AuthenticationErrorType::AuthenticationFailed)
    }

    /// Executes a request of the client at `address`. A client that has not
    /// authenticated can only authenticate: anything else is refused and
    /// changes nothing.
    pub fn execute_request(&mut self, address: &str, request: QueryRequest) -> (result: Result<
        QueryResponseType,
        String,
    >)
        ensures
            state_after(*old(self), address@, request@, *final(self)),
            answers(result, reply_to(*old(self), address@, request@)),
            !old(self).sessions().contains(address@) && !(request@ is AUTH) ==> refused(
                result,
                AuthenticationErrorType::NotAuthenticated,
            ) && final(self).db() == old(self).db() && final(self).sessions() == old(
                self,
            ).sessions(),
    {
        proof {
            use_type_invariant(&*self);
        }
        let known = self.find(address).is_some();
        match request {
            QueryRequest::AUTH(password) => self.authenticate(address, password.as_str()),
            other => {
                if !known {
                    return auth_error(AuthenticationErrorType::NotAuthenticated);
                }
                let mut db = Database::new(self.database_type);
                std::mem::swap(&mut db, &mut self.db);
                let result = serve(&mut db, other);
                self.db = db;
                result
            },
        }
    }
}

/// Executes a request other than `AUTH` on the store.
fn serve(db: &mut Database, request: QueryRequest) -> (result: Result<QueryResponseType, String>)
    requires
        !(request@ is AUTH),
    ensures
        store_after(*old(db), request@, *final(db)),
        outcome(result, response_to(*old(db), request@)),
{
    proof {
        use_type_invariant(&*db);
    }
    match request {
        QueryRequest::GET(key) => db.get(key.as_str()),
        QueryRequest::GET_RANGE { key_lower, key_upper } => db.get_range(key_lower, key_upper),
        QueryRequest::GET_MANY(keys) => db.get_many(keys),
        QueryRequest::DEL(key) => db.del(key.as_str()),
        QueryRequest::DEL_RANGE { key_lower, key_upper } => db.del_range(key_lower, key_upper),
        QueryRequest::DEL_MANY(keys) => db.del_many(keys),
        QueryRequest::SET(key_value_pair) => db.set(
            key_value_pair.key.as_str(),
            key_value_pair.value,
        ),
        QueryRequest::SET_MANY(key_value_pairs) => db.set_many(key_value_pairs),
        QueryRequest::AUTH(_) => vstd::pervasive::unreached(),
        QueryRequest::CLEAR => db.clear(),
        QueryRequest::LEN => db.len(),
        QueryRequest::PING => Ok(QueryResponseType::PING_OK),
        QueryRequest::EXISTS(key) => db.contains(key.as_str()),
        QueryRequest::SHUTDOWN => Ok(QueryResponseType::SHUTDOWN_OK),
    }
}

/// The refusal at the authentication gate, as it is reported.
pub fn auth_error(error_type: AuthenticationErrorType) -> (result: Result<
    QueryResponseType,
    String,
>)
    ensures
        refused(result, error_type),
{
    Err(AuthenticationError { error_type }.to_string())
}

} // verus!
