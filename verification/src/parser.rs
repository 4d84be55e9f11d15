//! The grammar of a request: one line, without its frame, becomes one
//! [`QueryRequest`] or the text of a parser error.

use crate::errors::parser_errors::{ParserError, ParserErrorKind, ParserErrorType};
use crate::numbers::{i32_of, is_float_text, parse_i32};
use crate::pattern::{has_unescaped_quote, pattern_found};
use crate::schemas::{
    pairs, texts, DatabaseType, FloatText, KeyValuePair, Pair, QueryRequest, Request, Value,
    ValueType,
};
use crate::text::{chars_of, has_char, has_prefix, same_text, trim_window, trimmed};
use vstd::prelude::*;
use vstd::string::*;

verus! {

/// The result of a parser function over plain values.
pub type Parsed<T> = Result<T, ParserErrorKind>;

/// Whether position `i` of `s` holds a double quote with no backslash directly before it.
pub open spec fn is_bare_quote(s: Seq<char>, i: int) -> bool {
    &&& 0 <= i < s.len()
    &&& s[i] == '"'
    &&& (i == 0 || s[i - 1] != '\\')
}

/// Whether position `n` of `s` lies inside a quoted stretch: the number of
/// bare quotes before it is odd.
pub open spec fn in_quotes(s: Seq<char>, n: int) -> bool
    decreases n,
{
    if n <= 0 {
        false
    } else {
        in_quotes(s, n - 1) != is_bare_quote(s, n - 1)
    }
}

/// Whether `s` is split at position `i`: the delimiter stands there, outside
/// quotes. A double quote never splits.
pub open spec fn is_split_point(s: Seq<char>, delimiter: char, i: int) -> bool {
    &&& 0 <= i < s.len()
    &&& s[i] == delimiter
    &&& s[i] != '"'
    &&& !in_quotes(s, i)
}

/// Where the part that position `n` belongs to starts: just behind the last
/// split point before `n`, or at 0.
pub open spec fn part_start(s: Seq<char>, delimiter: char, n: int) -> int
    decreases n,
{
    if n <= 0 {
        0
    } else if is_split_point(s, delimiter, n - 1) {
        n
    } else {
        part_start(s, delimiter, n - 1)
    }
}

/// The parts of `s` that a split point before `n` closes, each trimmed of spaces.
pub open spec fn closed_parts(s: Seq<char>, delimiter: char, n: int) -> Seq<Seq<char>>
    decreases n,
{
    if n <= 0 {
        Seq::empty()
    } else if is_split_point(s, delimiter, n - 1) {
        closed_parts(s, delimiter, n - 1).push(
            trimmed(s, part_start(s, delimiter, n - 1), n - 1, false),
        )
    } else {
        closed_parts(s, delimiter, n - 1)
    }
}

/// The parts of `s` between its split points, each trimmed of spaces. There
/// is always at least one part.
pub open spec fn split(s: Seq<char>, delimiter: char) -> Seq<Seq<char>> {
    closed_parts(s, delimiter, s.len() as int).push(
        trimmed(s, part_start(s, delimiter, s.len() as int), s.len() as int, false),
    )
}

/// Whether a token starts and ends with a double quote.
pub open spec fn is_quoted(token: Seq<char>) -> bool {
    token.len() >= 1 && token.first() == '"' && token.last() == '"'
}

/// The token without its first and last character.
pub open spec fn unwrapped(token: Seq<char>) -> Seq<char> {
    token.subrange(1, token.len() - 1)
}

/// The key that a token stands for, if it stands for one. A token in double
/// quotes stands for what is between them, which must not be empty. A lone
/// double quote stands for itself. Any other token stands for itself if it is
/// not empty and holds no space, comma or slash.
pub open spec fn key_of(token: Seq<char>) -> Option<Seq<char>> {
    if is_quoted(token) {
        if token.len() == 1 {
            Some(token)
        } else if token.len() == 2 {
            None
        } else {
            Some(unwrapped(token))
        }
    } else if token.len() == 0 || token.contains(' ') || token.contains(',') || token.contains(
        '/',
    ) {
        None
    } else {
        Some(token)
    }
}

/// The two keys of a range.
pub open spec fn ranged_keys(query_keys: Seq<char>) -> Parsed<Seq<Seq<char>>> {
    let tokens = split(query_keys, ' ');
    if tokens.len() != 2 {
        Err(ParserErrorKind::InvalidRange(tokens.len()))
    } else if key_of(tokens[0]) is None || key_of(tokens[1]) is None {
        Err(ParserErrorKind::UnexpectedCharacter)
    } else {
        Ok(seq![key_of(tokens[0])->0, key_of(tokens[1])->0])
    }
}

/// The keys that a list of tokens stands for, if each stands for one.
pub open spec fn keys_of(tokens: Seq<Seq<char>>) -> Parsed<Seq<Seq<char>>> {
    if forall|i: int| 0 <= i < tokens.len() ==> (#[trigger] key_of(tokens[i])) is Some {
        Ok(Seq::new(tokens.len(), |i: int| key_of(tokens[i])->0))
    } else {
        Err(ParserErrorKind::UnexpectedCharacter)
    }
}

/// The keys of a list separated by spaces.
pub open spec fn many_keys(query_keys: Seq<char>) -> Parsed<Seq<Seq<char>>> {
    keys_of(split(query_keys, ' '))
}

/// Whether the result of a function that hands out string slices is the one
/// that the grammar gives.
pub open spec fn slices_match(
    result: Result<Vec<&str>, String>,
    expected: Parsed<Seq<Seq<char>>>,
) -> bool {
    match expected {
        Ok(keys) => result matches Ok(found) && texts(found@) == keys,
        Err(kind) => result matches Err(error) && error@ == kind.message(),
    }
}

/// Whether the result of a parser function is the one that the grammar gives.
pub open spec fn request_matches(
    result: Result<QueryRequest, String>,
    expected: Parsed<Request>,
) -> bool {
    match expected {
        Ok(request) => result matches Ok(found) && found@ == request,
        Err(kind) => result matches Err(error) && error@ == kind.message(),
    }
}

/// Whether every double quote of `inner` has a backslash directly before it.
pub open spec fn escaped_quotes(inner: Seq<char>) -> bool {
    forall|i: int|
        0 <= i < inner.len() && #[trigger] inner[i] == '"' ==> i > 0 && inner[i - 1] == '\\'
}

/// The value that the text between the quotes of a token stands for, given
/// what the search for an unescaped double quote in it said. A double quote
/// must have a backslash directly before it, so one at the very start is
/// refused as well.
pub open spec fn quoted_value_of(inner: Seq<char>, json: bool, unescaped: Option<bool>) -> Parsed<
    Value,
> {
    if (inner.len() > 0 && inner[0] == '"') || unescaped != Some(false) {
        Err(ParserErrorKind::UnescapedDoubleQuote)
    } else if json {
        Ok(Value::Json(inner))
    } else {
        Ok(Value::Str(inner))
    }
}

/// The value that a token stands for in a store of the given type. A text
/// value stands in double quotes, and every double quote between them has a
/// backslash directly before it.
pub open spec fn value_of(token: Seq<char>, database_type: DatabaseType) -> Parsed<Value> {
    match database_type {
        DatabaseType::Str | DatabaseType::Json => {
            if !(is_quoted(token) && token.len() >= 2) {
                Err(ParserErrorKind::StringQuotesNotFound)
            } else if !escaped_quotes(unwrapped(token)) {
                Err(ParserErrorKind::UnescapedDoubleQuote)
            } else if database_type == DatabaseType::Json {
                Ok(Value::Json(unwrapped(token)))
            } else {
                Ok(Value::Str(unwrapped(token)))
            }
        },
        DatabaseType::Int => match i32_of(token) {
            Some(number) => Ok(Value::Int(number as int)),
            None => Err(ParserErrorKind::WrongValueType(database_type.name())),
        },
        DatabaseType::Float => if is_float_text(token) {
            Ok(Value::Float(token))
        } else {
            Err(ParserErrorKind::WrongValueType(database_type.name()))
        },
        DatabaseType::Bool => if token == "true"@ {
            Ok(Value::Bool(true))
        } else if token == "false"@ {
            Ok(Value::Bool(false))
        } else {
            Err(ParserErrorKind::WrongValueType(database_type.name()))
        },
    }
}

/// The pair that a key and a value separated by a space stand for.
pub open spec fn pair_of(chunk: Seq<char>, database_type: DatabaseType) -> Parsed<Pair> {
    let parts = split(chunk, ' ');
    if parts.len() != 2 {
        Err(ParserErrorKind::InvalidKeyValuePair(parts.len()))
    } else if key_of(parts[0]) is None {
        Err(ParserErrorKind::UnexpectedCharacter)
    } else {
        match value_of(parts[1], database_type) {
            Ok(value) => Ok(Pair { key: key_of(parts[0])->0, value }),
            Err(kind) => Err(kind),
        }
    }
}

/// The pairs that the first `n` chunks stand for, or the error of the first
/// chunk that stands for none.
pub open spec fn pairs_of(chunks: Seq<Seq<char>>, database_type: DatabaseType, n: int) -> Parsed<
    Seq<Pair>,
>
    decreases n,
{
    if n <= 0 {
        Ok(Seq::empty())
    } else {
        match pairs_of(chunks, database_type, n - 1) {
            Err(kind) => Err(kind),
            Ok(found) => match pair_of(chunks[n - 1], database_type) {
                Ok(pair) => Ok(found.push(pair)),
                Err(kind) => Err(kind),
            },
        }
    }
}

/// What is left of `line` behind a prefix of the length of `prefix`.
pub open spec fn behind(line: Seq<char>, prefix: Seq<char>) -> Seq<char> {
    line.skip(prefix.len() as int)
}

/// The request that the parameters of `GET` stand for.
pub open spec fn get_request(query: Seq<char>) -> Parsed<Request> {
    if "RANGE "@.is_prefix_of(query) {
        match ranged_keys(behind(query, "RANGE "@)) {
            Ok(keys) => Ok(Request::GET_RANGE { key_lower: keys[0], key_upper: keys[1] }),
            Err(kind) => Err(kind),
        }
    } else if "MANY "@.is_prefix_of(query) {
        match many_keys(behind(query, "MANY "@)) {
            Ok(keys) => Ok(Request::GET_MANY(keys)),
            Err(kind) => Err(kind),
        }
    } else {
        match key_of(query) {
            Some(key) => Ok(Request::GET(key)),
            None => Err(ParserErrorKind::UnexpectedCharacter),
        }
    }
}

/// The request that the parameters of `DEL` stand for.
pub open spec fn del_request(query: Seq<char>) -> Parsed<Request> {
    if "RANGE "@.is_prefix_of(query) {
        match ranged_keys(behind(query, "RANGE "@)) {
            Ok(keys) => Ok(Request::DEL_RANGE { key_lower: keys[0], key_upper: keys[1] }),
            Err(kind) => Err(kind),
        }
    } else if "MANY "@.is_prefix_of(query) {
        match many_keys(behind(query, "MANY "@)) {
            Ok(keys) => Ok(Request::DEL_MANY(keys)),
            Err(kind) => Err(kind),
        }
    } else {
        match key_of(query) {
            Some(key) => Ok(Request::DEL(key)),
            None => Err(ParserErrorKind::UnexpectedCharacter),
        }
    }
}

/// The request that the parameters of `SET` stand for.
pub open spec fn set_request(query: Seq<char>, database_type: DatabaseType) -> Parsed<Request> {
    if "MANY "@.is_prefix_of(query) {
        let chunks = split(behind(query, "MANY "@), ',');
        match pairs_of(chunks, database_type, chunks.len() as int) {
            Ok(found) => Ok(Request::SET_MANY(found)),
            Err(kind) => Err(kind),
        }
    } else {
        match pair_of(query, database_type) {
            Ok(pair) => Ok(Request::SET(pair)),
            Err(kind) => Err(kind),
        }
    }
}

/// The request that the parameter of `AUTH` stands for.
pub open spec fn auth_request(password: Seq<char>) -> Parsed<Request> {
    if password.contains(' ') {
        Err(ParserErrorKind::WrongAuthentication)
    } else {
        Ok(Request::AUTH(password))
    }
}

/// The request that the parameter of `EXISTS` stands for.
pub open spec fn exists_request(query: Seq<char>) -> Parsed<Request> {
    match key_of(query) {
        Some(key) => Ok(Request::EXISTS(key)),
        None => Err(ParserErrorKind::UnexpectedCharacter),
    }
}

/// The request of a command that takes no parameters: anything behind the
/// command is refused.
pub open spec fn bare_request(line: Seq<char>, command: Seq<char>, request: Request) -> Parsed<
    Request,
> {
    if line.len() > command.len() {
        Err(ParserErrorKind::UnexpectedParameters(command))
    } else {
        Ok(request)
    }
}

/// The request that a line stands for in a store of the given type.
pub open spec fn request_of(line: Seq<char>, database_type: DatabaseType) -> Parsed<Request> {
    if "GET "@.is_prefix_of(line) {
        get_request(behind(line, "GET "@))
    } else if "DEL "@.is_prefix_of(line) {
        del_request(behind(line, "DEL "@))
    } else if "SET "@.is_prefix_of(line) {
        set_request(behind(line, "SET "@), database_type)
    } else if "AUTH "@.is_prefix_of(line) {
        auth_request(behind(line, "AUTH "@))
    } else if "CLEAR"@.is_prefix_of(line) {
        bare_request(line, "CLEAR"@, Request::CLEAR)
    } else if "LEN"@.is_prefix_of(line) {
        bare_request(line, "LEN"@, Request::LEN)
    } else if "PING"@.is_prefix_of(line) {
        bare_request(line, "PING"@, Request::PING)
    } else if "EXISTS "@.is_prefix_of(line) {
        exists_request(behind(line, "EXISTS "@))
    } else if "SHUTDOWN"@.is_prefix_of(line) {
        bare_request(line, "SHUTDOWN"@, Request::SHUTDOWN)
    } else {
        Err(ParserErrorKind::UnknownQueryOperation(line))
    }
}

/// Whether the keys that a request stores are not empty.
pub open spec fn stores_named_keys(request: Request) -> bool {
    match request {
        Request::SET(pair) => pair.key.len() > 0,
        Request::SET_MANY(list) => forall|i: int|
            0 <= i < list.len() ==> (#[trigger] list[i]).key.len() > 0,
        _ => true,
    }
}

/// Whether the result of a function that reads a value is the one that the
/// grammar gives.
pub open spec fn value_matches(result: Result<ValueType, String>, expected: Parsed<Value>) -> bool {
    match expected {
        Ok(value) => result matches Ok(found) && found@ == value,
        Err(kind) => result matches Err(error) && error@ == kind.message(),
    }
}

/// The start of a part lies at or before the position it is asked for.
pub proof fn lemma_part_start_bounds(s: Seq<char>, delimiter: char, n: int)
    requires
        0 <= n <= s.len(),
    ensures
        0 <= part_start(s, delimiter, n) <= n,
    decreases n,
{
    if n > 0 && !is_split_point(s, delimiter, n - 1) {
        lemma_part_start_bounds(s, delimiter, n - 1);
    }
}

/// The pairs that chunks stand for have keys that are not empty.
pub proof fn lemma_pairs_named(chunks: Seq<Seq<char>>, database_type: DatabaseType, n: int)
    requires
        0 <= n <= chunks.len(),
    ensures
        pairs_of(chunks, database_type, n) matches Ok(list) ==> forall|i: int|
            0 <= i < list.len() ==> (#[trigger] list[i]).key.len() > 0,
    decreases n,
{
    if n > 0 {
        lemma_pairs_named(chunks, database_type, n - 1);
    }
}

/// No request that is parsed from a line stores anything under the empty key.
pub proof fn lemma_request_named(line: Seq<char>, database_type: DatabaseType)
    ensures
        request_of(line, database_type) matches Ok(request) ==> stores_named_keys(request),
{
    if "GET "@.is_prefix_of(line) {
    } else if "DEL "@.is_prefix_of(line) {
    } else if "SET "@.is_prefix_of(line) {
        let query = behind(line, "SET "@);
        if "MANY "@.is_prefix_of(query) {
            let chunks = split(behind(query, "MANY "@), ',');
            lemma_pairs_named(chunks, database_type, chunks.len() as int);
        }
    }
}

/// The double quotes of a text are all escaped if the first character is
/// none and no double quote stands behind a character other than a backslash.
pub proof fn lemma_quoted_value(inner: Seq<char>)
    ensures
        escaped_quotes(inner) <==> !(inner.len() > 0 && inner[0] == '"') && !has_unescaped_quote(
            inner,
        ),
{
    if !escaped_quotes(inner) {
        let i = choose|i: int|
            0 <= i < inner.len() && #[trigger] inner[i] == '"' && !(i > 0 && inner[i - 1] == '\\');
        if i > 0 {
            assert(1 <= i < inner.len() && inner[i] == '"' && inner[i - 1] != '\\');
        }
    }
}

/// Once a chunk has failed, the error stays whatever follows it.
pub proof fn lemma_pairs_of_fails(
    chunks: Seq<Seq<char>>,
    database_type: DatabaseType,
    n: int,
    m: int,
)
    requires
        0 <= n <= m,
        pairs_of(chunks, database_type, n) is Err,
    ensures
        pairs_of(chunks, database_type, m) == pairs_of(chunks, database_type, n),
    decreases m - n,
{
    if n < m {
        lemma_pairs_of_fails(chunks, database_type, n, m - 1);
    }
}

/// The text of a parser error.
pub fn error_text(error_type: ParserErrorType) -> (s: String)
    ensures
        s@ == error_type@.message(),
{
    ParserError { error_type }.to_string()
}

/// Splits `string` at each `delimiter` that stands outside double quotes, and
/// trims every part of spaces. A double quote opens or closes a quoted
/// stretch unless a backslash stands directly before it.
pub fn split_at_delimiter(string: &str, delimiter: char) -> (parts: Vec<&str>)
    ensures
        texts(parts@) == split(string@, delimiter),
{
    let v = chars_of(string);
    let mut parts: Vec<&str> = Vec::new();
    let mut start: usize = 0;
    let mut inside: bool = false;
    let mut i: usize = 0;
    assert(texts(parts@) =~= closed_parts(v@, delimiter, 0));
    while i < v.len()
        invariant
            i <= v.len(),
            v@ == string@,
            start <= i,
            start == part_start(v@, delimiter, i as int),
            inside == in_quotes(v@, i as int),
            texts(parts@) == closed_parts(v@, delimiter, i as int),
        decreases v.len() - i,
    {
        let c = v[i];
        if c == '"' {
            if i == 0 || v[i - 1] != '\\' {
                inside = !inside;
            }
        } else if c == delimiter && !inside {
            let bounds = trim_window(&v, start, i, false);
            let part = string.substring_char(bounds.0, bounds.1);
            let ghost before = parts@;
            parts.push(part);
            assert(texts(parts@) =~= texts(before).push(part@));
            start = i + 1;
        }
        i += 1;
    }
    let bounds = trim_window(&v, start, v.len(), false);
    let part = string.substring_char(bounds.0, bounds.1);
    let ghost before = parts@;
    parts.push(part);
    assert(texts(parts@) =~= texts(before).push(part@));
    parts
}

/// Checks that a token stands for a key, and returns the key.
pub fn validate_key(key: &str) -> (result: Result<&str, String>)
    ensures
        match key_of(key@) {
            Some(found) => result matches Ok(text) && text@ == found,
            None => result matches Err(error) && error@
                == ParserErrorKind::UnexpectedCharacter.message(),
        },
{
    let v = chars_of(key);
    let n = v.len();
    if n >= 1 && v[0] == '"' && v[n - 1] == '"' {
        if n == 1 {
            return Ok(key);
        }
        if n == 2 {
            return Err(error_text(ParserErrorType::UnexpectedCharacter));
        }
        return Ok(key.substring_char(1, n - 1));
    }
    if n == 0 || has_char(&v, ' ') || has_char(&v, ',') || has_char(&v, '/') {
        return Err(error_text(ParserErrorType::UnexpectedCharacter));
    }
    Ok(key)
}

/// Parses the two keys of a range, separated by a space.
pub fn parse_ranged_keys(query_keys: &str) -> (result: Result<Vec<&str>, String>)
    ensures
        slices_match(result, ranged_keys(query_keys@)),
{
    let tokens = split_at_delimiter(query_keys, ' ');
    if tokens.len() != 2 {
        return Err(error_text(ParserErrorType::InvalidRange(tokens.len())));
    }
    assert(texts(tokens@)[0] == tokens@[0]@);
    assert(texts(tokens@)[1] == tokens@[1]@);
    let lower_key = match validate_key(tokens[0]) {
        Ok(key) => key,
        Err(error) => return Err(error),
    };
    let upper_key = match validate_key(tokens[1]) {
        Ok(key) => key,
        Err(error) => return Err(error),
    };
    let mut keys: Vec<&str> = Vec::new();
    keys.push(lower_key);
    keys.push(upper_key);
    assert(texts(keys@) =~= seq![lower_key@, upper_key@]);
    Ok(keys)
}

/// Parses a list of keys separated by spaces.
pub fn parse_many_keys(query_keys: &str) -> (result: Result<Vec<&str>, String>)
    ensures
        slices_match(result, many_keys(query_keys@)),
{
    let tokens = split_at_delimiter(query_keys, ' ');
    let ghost all = texts(tokens@);
    let mut keys: Vec<&str> = Vec::new();
    let mut i: usize = 0;
    while i < tokens.len()
        invariant
            i <= tokens.len(),
            all == texts(tokens@),
            all == split(query_keys@, ' '),
            keys.len() == i,
            forall|j: int| 0 <= j < i ==> (#[trigger] key_of(all[j])) == Some(keys@[j]@),
        decreases tokens.len() - i,
    {
        assert(all[i as int] == tokens@[i as int]@);
        match validate_key(tokens[i]) {
            Ok(key) => {
                keys.push(key);
            },
            Err(error) => {
                assert(key_of(all[i as int]) is None);
                return Err(error);
            },
        }
        i += 1;
    }
    assert(texts(keys@) =~= Seq::new(all.len(), |j: int| key_of(all[j])->0));
    Ok(keys)
}

/// What is left of `line` behind `prefix`, if `line` starts with it.
pub fn strip_prefix<'a>(line: &'a str, prefix: &str) -> (rest: Option<&'a str>)
    ensures
        match rest {
            Some(found) => prefix@.is_prefix_of(line@) && found@ == behind(line@, prefix@),
            None => !prefix@.is_prefix_of(line@),
        },
{
    let v = chars_of(line);
    if has_prefix(&v, prefix) {
        let n = prefix.unicode_len();
        Some(line.substring_char(n, v.len()))
    } else {
        None
    }
}

/// Makes the value of the text between the quotes of a token, given what the
/// search for an unescaped double quote in it said.
pub fn quoted_value(inner: &str, json: bool, unescaped: Option<bool>) -> (result: Result<
    ValueType,
    String,
>)
    ensures
        value_matches(result, quoted_value_of(inner@, json, unescaped)),
{
    let v = chars_of(inner);
    let clean = match unescaped {
        Some(found) => !found,
        None => false,
    };
    if (v.len() > 0 && v[0] == '"') || !clean {
        return Err(error_text(ParserErrorType::UnescapedDoubleQuote));
    }
    if json {
        Ok(ValueType::Json(String::from_str(inner)))
    } else {
        Ok(ValueType::Str(String::from_str(inner)))
    }
}

/// Reads a token as a value of the type that the store holds.
pub fn parse_set_value(value_query_parameter: &str, database_type: &DatabaseType) -> (result:
    Result<ValueType, String>)
    ensures
        value_matches(result, value_of(value_query_parameter@, *database_type)),
{
    match database_type {
        DatabaseType::Str | DatabaseType::Json => {
            let v = chars_of(value_query_parameter);
            let n = v.len();
            if !(n >= 2 && v[0] == '"' && v[n - 1] == '"') {
                return Err(error_text(ParserErrorType::StringQuotesNotFound));
            }
            let inner = value_query_parameter.substring_char(1, n - 1);
            let unescaped = pattern_found("([^\\\\])\"", inner);
            proof {
                lemma_quoted_value(inner@);
            }
            let json = match database_type {
                DatabaseType::Json => true,
                _ => false,
            };
            quoted_value(inner, json, unescaped)
        },
        DatabaseType::Int => match parse_i32(value_query_parameter) {
            Some(number) => Ok(ValueType::Int(number)),
            None => Err(error_text(ParserErrorType::WrongValueType(database_type.to_string()))),
        },
        DatabaseType::Float => {
            match FloatText::new(value_query_parameter) {
                Some(number) => Ok(ValueType::Float(number)),
                None => Err(
                    error_text(ParserErrorType::WrongValueType(database_type.to_string())),
                ),
            }
        },
        DatabaseType::Bool => {
            if same_text(value_query_parameter, "true") {
                Ok(ValueType::Bool(true))
            } else if same_text(value_query_parameter, "false") {
                Ok(ValueType::Bool(false))
            } else {
                Err(error_text(ParserErrorType::WrongValueType(database_type.to_string())))
            }
        },
    }
}

/// Parses a key and a value separated by a space.
pub fn parse_pair(chunk: &str, database_type: &DatabaseType) -> (result: Result<
    KeyValuePair,
    String,
>)
    ensures
        match pair_of(chunk@, *database_type) {
            Ok(pair) => result matches Ok(found) && found@ == pair,
            Err(kind) => result matches Err(error) && error@ == kind.message(),
        },
{
    let parameters = split_at_delimiter(chunk, ' ');
    if parameters.len() != 2 {
        return Err(error_text(ParserErrorType::InvalidKeyValuePair(parameters.len())));
    }
    assert(texts(parameters@)[0] == parameters@[0]@);
    assert(texts(parameters@)[1] == parameters@[1]@);
    let key = match validate_key(parameters[0]) {
        Ok(key) => key,
        Err(error) => return Err(error),
    };
    match parse_set_value(parameters[1], database_type) {
        Ok(value) => Ok(KeyValuePair { key: String::from_str(key), value }),
        Err(error) => Err(error),
    }
}

/// Parses the parameters of `GET`: a key, `RANGE` with two keys, or `MANY`
/// with a list of keys.
pub fn parse_get(query: &str) -> (result: Result<QueryRequest, String>)
    ensures
        request_matches(result, get_request(query@)),
{
    if let Some(rest) = strip_prefix(query, "RANGE ") {
        return match parse_ranged_keys(rest) {
            Ok(range_keys) => {
                assert(texts(range_keys@).len() == range_keys@.len());
                assert(texts(range_keys@)[0] == range_keys@[0]@);
                assert(texts(range_keys@)[1] == range_keys@[1]@);
                Ok(
                    QueryRequest::GET_RANGE {
                        key_lower: String::from_str(range_keys[0]),
                        key_upper: String::from_str(range_keys[1]),
                    },
                )
            },
            Err(error) => Err(error),
        };
    }
    if let Some(rest) = strip_prefix(query, "MANY ") {
        return match parse_many_keys(rest) {
            Ok(keys) => Ok(QueryRequest::GET_MANY(keys)),
            Err(error) => Err(error),
        };
    }
    match validate_key(query) {
        Ok(key) => Ok(QueryRequest::GET(String::from_str(key))),
        Err(error) => Err(error),
    }
}

/// Parses the parameters of `DEL`: a key, `RANGE` with two keys, or `MANY`
/// with a list of keys.
pub fn parse_del(query: &str) -> (result: Result<QueryRequest, String>)
    ensures
        request_matches(result, del_request(query@)),
{
    if let Some(rest) = strip_prefix(query, "RANGE ") {
        return match parse_ranged_keys(rest) {
            Ok(range_keys) => {
                assert(texts(range_keys@).len() == range_keys@.len());
                assert(texts(range_keys@)[0] == range_keys@[0]@);
                assert(texts(range_keys@)[1] == range_keys@[1]@);
                Ok(
                    QueryRequest::DEL_RANGE {
                        key_lower: String::from_str(range_keys[0]),
                        key_upper: String::from_str(range_keys[1]),
                    },
                )
            },
            Err(error) => Err(error),
        };
    }
    if let Some(rest) = strip_prefix(query, "MANY ") {
        return match parse_many_keys(rest) {
            Ok(keys) => Ok(QueryRequest::DEL_MANY(keys)),
            Err(error) => Err(error),
        };
    }
    match validate_key(query) {
        Ok(key) => Ok(QueryRequest::DEL(String::from_str(key))),
        Err(error) => Err(error),
    }
}

/// Parses the parameters of `SET`: a key and a value, or `MANY` with pairs
/// separated by commas.
#[verifier::loop_isolation(false)]
pub fn parse_set<'a>(query: &'a str, database_type: &DatabaseType) -> (result: Result<
    QueryRequest<'a>,
    String,
>)
    ensures
        request_matches(result, set_request(query@, *database_type)),
{
    if let Some(rest) = strip_prefix(query, "MANY ") {
        let key_value_pairs = split_at_delimiter(rest, ',');
        let ghost chunks = texts(key_value_pairs@);
        let mut parsed_pairs: Vec<KeyValuePair> = Vec::new();
        let mut i: usize = 0;
        assert(pairs(parsed_pairs@) =~= Seq::<Pair>::empty());
        while i < key_value_pairs.len()
            invariant
                i <= key_value_pairs.len(),
                chunks == texts(key_value_pairs@),
                pairs_of(chunks, *database_type, i as int) == Ok::<Seq<Pair>, ParserErrorKind>(
                    pairs(parsed_pairs@),
                ),
            decreases key_value_pairs.len() - i,
        {
            assert(chunks[i as int] == key_value_pairs@[i as int]@);
            match parse_pair(key_value_pairs[i], database_type) {
                Ok(pair) => {
                    let ghost before = parsed_pairs@;
                    parsed_pairs.push(pair);
                    assert(pairs(parsed_pairs@) =~= pairs(before).push(pair@));
                },
                Err(error) => {
                    proof {
                        assert(pairs_of(chunks, *database_type, i + 1) is Err);
                        lemma_pairs_of_fails(
                            chunks,
                            *database_type,
                            i + 1,
                            key_value_pairs.len() as int,
                        );
                    }
                    return Err(error);
                },
            }
            i += 1;
        }
        return Ok(QueryRequest::SET_MANY(parsed_pairs));
    }
    match parse_pair(query, database_type) {
        Ok(pair) => Ok(QueryRequest::SET(pair)),
        Err(error) => Err(error),
    }
}

/// Parses the parameter of `AUTH`: a password without spaces.
pub fn parse_auth(password: &str) -> (result: Result<QueryRequest, String>)
    ensures
        request_matches(result, auth_request(password@)),
{
    let v = chars_of(password);
    if has_char(&v, ' ') {
        return Err(error_text(ParserErrorType::WrongAuthentication));
    }
    Ok(QueryRequest::AUTH(String::from_str(password)))
}

/// Parses the parameter of `EXISTS`: a key.
pub fn parse_exists(query: &str) -> (result: Result<QueryRequest, String>)
    ensures
        request_matches(result, exists_request(query@)),
{
    match validate_key(query) {
        Ok(key) => Ok(QueryRequest::EXISTS(String::from_str(key))),
        Err(error) => Err(error),
    }
}

/// Accepts a command that takes no parameters, unless the line goes on behind it.
pub fn parse_single_command<'a>(
    request: &'a str,
    expected_command: &'a str,
    query_request: QueryRequest<'a>,
) -> (result: Result<QueryRequest<'a>, String>)
    ensures
        request_matches(result, bare_request(request@, expected_command@, query_request@)),
{
    if request.unicode_len() > expected_command.unicode_len() {
        return Err(
            error_text(ParserErrorType::UnexpectedParameters(String::from_str(expected_command))),
        );
    }
    Ok(query_request)
}

/// Parses one request line, without its frame, for a store of the given type.
pub fn parse<'a>(request: &'a str, database_type: &DatabaseType) -> (result: Result<
    QueryRequest<'a>,
    String,
>)
    ensures
        request_matches(result, request_of(request@, *database_type)),
{
    let v = chars_of(request);
    if let Some(rest) = strip_prefix(request, "GET ") {
        return parse_get(rest);
    } else if let Some(rest) = strip_prefix(request, "DEL ") {
        return parse_del(rest);
    } else if let Some(rest) = strip_prefix(request, "SET ") {
        return parse_set(rest, database_type);
    } else if let Some(rest) = strip_prefix(request, "AUTH ") {
        return parse_auth(rest);
    } else if has_prefix(&v, "CLEAR") {
        return parse_single_command(request, "CLEAR", QueryRequest::CLEAR);
    } else if has_prefix(&v, "LEN") {
        return parse_single_command(request, "LEN", QueryRequest::LEN);
    } else if has_prefix(&v, "PING") {
        return parse_single_command(request, "PING", QueryRequest::PING);
    } else if let Some(rest) = strip_prefix(request, "EXISTS ") {
        return parse_exists(rest);
    } else if has_prefix(&v, "SHUTDOWN") {
        return parse_single_command(request, "SHUTDOWN", QueryRequest::SHUTDOWN);
    }
    Err(error_text(ParserErrorType::UnknownQueryOperation(String::from_str(request))))
}

} // verus!
