//! Every frame that the server writes lies in the envelope of the protocol:
//! it starts with `CASP/`, a status and a slash, it ends with a slash and a
//! line feed, and it holds no other line feed. This holds as long as the
//! lines that come in are single lines; the store then never gets to hold a
//! line feed that an answer could carry out again.

use crate::database::Database;
use crate::entries::{all_typed, many_values, pairs_between, values_of, with_pairs, without_keys};
use crate::errors::authentication_errors::AuthenticationErrorType;
use crate::errors::database_errors::DatabaseErrorKind;
use crate::errors::parser_errors::ParserErrorKind;
use crate::errors::protocol_errors::ProtocolErrorKind;
use crate::numbers::{
    decimal, lemma_decimal_plain, lemma_float_text_single_line, signed_decimal,
};
use crate::parser::{
    auth_request, behind, closed_parts, del_request, exists_request, get_request, is_quoted,
    key_of, keys_of, lemma_part_start_bounds, pair_of, pairs_of, part_start, ranged_keys,
    request_of, set_request, split, value_of, Parsed,
};
use crate::response::{
    carries_values, content, error_frame, identifier, joined, ok_frame, rendered, response_frame,
    warn_frame,
};
use crate::schemas::{DatabaseType, Pair, Request, Response, Value};
use crate::server::{body_of, frame_fault, reaction, step_for};
use crate::state::{reply_to, response_to, state_after, State};
use crate::text::{
    lemma_escape_newlines_single_line, lemma_single_line_concat, lemma_single_line_subrange,
    lemma_single_line_trimmed, single_line,
};
use vstd::prelude::*;

verus! {

/// Whether the text of a value, if it is a string or JSON, holds no line
/// feed. The other values are written without one in any case.
pub open spec fn plain_value(value: Value) -> bool {
    match value {
        Value::Str(text) => single_line(text),
        Value::Json(text) => single_line(text),
        _ => true,
    }
}

/// Whether each of the values is one that the store can hold.
pub open spec fn formed_values(list: Seq<Value>) -> bool {
    forall|i: int| 0 <= i < list.len() ==> (#[trigger] list[i]).well_formed()
}

/// Whether the values of a result are values that the store can hold.
pub open spec fn formed_response(response: Response) -> bool {
    match response {
        Response::GET_OK(value) => value.well_formed(),
        Response::GET_RANGE_OK(list) => formed_values(list),
        Response::GET_MANY_OK(list) => formed_values(list),
        _ => true,
    }
}

/// Whether none of the texts holds a line feed.
pub open spec fn plain_texts(list: Seq<Seq<char>>) -> bool {
    forall|i: int| 0 <= i < list.len() ==> single_line(#[trigger] list[i])
}

/// Whether none of the values holds a line feed.
pub open spec fn plain_values(list: Seq<Value>) -> bool {
    forall|i: int| 0 <= i < list.len() ==> plain_value(#[trigger] list[i])
}

/// Whether a pair holds no line feed.
pub open spec fn plain_pair(pair: Pair) -> bool {
    single_line(pair.key) && plain_value(pair.value)
}

/// Whether none of the pairs holds a line feed.
pub open spec fn plain_pairs(list: Seq<Pair>) -> bool {
    forall|i: int| 0 <= i < list.len() ==> plain_pair(#[trigger] list[i])
}

/// Whether the keys and values of a request hold no line feed.
pub open spec fn plain_request(request: Request) -> bool {
    match request {
        Request::GET(key) => single_line(key),
        Request::SET(pair) => plain_pair(pair),
        Request::SET_MANY(list) => plain_pairs(list),
        Request::GET_RANGE { key_lower, key_upper } => single_line(key_lower) && single_line(
            key_upper,
        ),
        Request::GET_MANY(keys) => plain_texts(keys),
        Request::DEL(key) => single_line(key),
        Request::DEL_RANGE { key_lower, key_upper } => single_line(key_lower) && single_line(
            key_upper,
        ),
        Request::DEL_MANY(keys) => plain_texts(keys),
        Request::EXISTS(key) => single_line(key),
        _ => true,
    }
}

/// Whether the texts that a parser error reports hold no line feed.
pub open spec fn plain_parser_error(kind: ParserErrorKind) -> bool {
    match kind {
        ParserErrorKind::UnknownQueryOperation(line) => single_line(line),
        ParserErrorKind::WrongValueType(name) => single_line(name),
        ParserErrorKind::UnexpectedParameters(command) => single_line(command),
        _ => true,
    }
}

/// Whether what was parsed holds no line feed, be it a result or an error.
pub open spec fn plain_parsed<T>(parsed: Parsed<T>, plain: spec_fn(T) -> bool) -> bool {
    match parsed {
        Ok(found) => plain(found),
        Err(kind) => plain_parser_error(kind),
    }
}

/// Whether the values of a result hold no line feed.
pub open spec fn plain_response(response: Response) -> bool {
    match response {
        Response::GET_OK(value) => plain_value(value),
        Response::GET_RANGE_OK(list) => plain_values(list),
        Response::GET_MANY_OK(list) => plain_values(list),
        _ => true,
    }
}

/// Whether no value of the map holds a line feed.
pub open spec fn plain_map(map: Map<Seq<char>, Value>) -> bool {
    forall|key: Seq<char>| #[trigger] map.contains_key(key) ==> plain_value(map[key])
}

/// Whether a line holds no line feed but at its end.
pub open spec fn one_line(line: Seq<char>) -> bool {
    line.len() == 0 || single_line(line.drop_last())
}

/// Whether `frame` is the status and the content between the markers of the
/// protocol, with a content that holds no line feed.
pub open spec fn is_envelope(frame: Seq<char>, status: Seq<char>, content: Seq<char>) -> bool {
    &&& status == "OK"@ || status == "WARN"@ || status == "ERROR"@
    &&& single_line(content)
    &&& frame == "CASP/"@ + status + "/"@ + content + "/"@ + "\n"@
}

/// Whether `frame` lies in the envelope of the protocol: `CASP/`, then `OK`,
/// `WARN` or `ERROR`, a slash, a content without a line feed, a slash and a
/// line feed.
pub open spec fn in_envelope(frame: Seq<char>) -> bool {
    exists|status: Seq<char>, content: Seq<char>| is_envelope(frame, status, content)
}

/// Whether `frame` lies in the envelope of a success: it starts with
/// `CASP/OK/`, it ends with a slash and a line feed, and what stands between
/// holds no line feed.
pub open spec fn in_ok_envelope(frame: Seq<char>) -> bool {
    exists|content: Seq<char>| is_envelope(frame, "OK"@, content)
}

/// Whether `frame` lies in the envelope of an error: it starts with
/// `CASP/ERROR/`, it ends with a slash and a line feed, and what stands
/// between holds no line feed.
pub open spec fn in_error_envelope(frame: Seq<char>) -> bool {
    exists|content: Seq<char>| is_envelope(frame, "ERROR"@, content)
}

/// Whether the key that a store error reports holds no line feed.
pub open spec fn plain_database_error(kind: DatabaseErrorKind) -> bool {
    match kind {
        DatabaseErrorKind::KeyNotFound(key) => single_line(key),
        _ => true,
    }
}

/// The frame of an error whose text holds no line feed lies in the envelope.
pub proof fn lemma_error_frame(message: Seq<char>)
    requires
        single_line(message),
    ensures
        in_envelope(error_frame(message)),
        in_error_envelope(error_frame(message)),
{
    reveal_strlit("CASP/ERROR/");
    reveal_strlit("CASP/");
    reveal_strlit("ERROR");
    reveal_strlit("/");
    assert("CASP/ERROR/"@ =~= "CASP/"@ + "ERROR"@ + "/"@);
    assert(is_envelope(error_frame(message), "ERROR"@, message));
}

/// The frame of a warning whose text holds no line feed lies in the envelope.
pub proof fn lemma_warn_frame(message: Seq<char>)
    requires
        single_line(message),
    ensures
        in_envelope(warn_frame(message)),
{
    reveal_strlit("CASP/WARN/");
    reveal_strlit("CASP/");
    reveal_strlit("WARN");
    reveal_strlit("/");
    assert("CASP/WARN/"@ =~= "CASP/"@ + "WARN"@ + "/"@);
    assert(is_envelope(warn_frame(message), "WARN"@, message));
}

/// The frame of a success whose pieces hold no line feed lies in the envelope.
pub proof fn lemma_ok_frame(
    identifier: Seq<char>,
    content: Option<Seq<char>>,
    kind: Option<Seq<char>>,
)
    requires
        single_line(identifier),
        content matches Some(text) ==> single_line(text),
        kind matches Some(name) ==> single_line(name),
    ensures
        in_envelope(ok_frame(identifier, content, kind)),
        in_ok_envelope(ok_frame(identifier, content, kind)),
{
    reveal_strlit("CASP/OK/");
    reveal_strlit("CASP/");
    reveal_strlit("OK");
    reveal_strlit("/");
    assert("CASP/OK/"@ =~= "CASP/"@ + "OK"@ + "/"@);
    let front = match kind {
        Some(name) => name + "/"@ + identifier,
        None => identifier,
    };
    let middle = match content {
        Some(text) => front + "/"@ + text,
        None => front,
    };
    if kind is Some {
        lemma_single_line_concat(kind->0, "/"@);
        lemma_single_line_concat(kind->0 + "/"@, identifier);
    }
    if content is Some {
        lemma_single_line_concat(front, "/"@);
        lemma_single_line_concat(front + "/"@, content->0);
    }
    assert(ok_frame(identifier, content, kind) =~= "CASP/"@ + "OK"@ + "/"@ + middle + "/"@ + "\n"@);
    assert(is_envelope(ok_frame(identifier, content, kind), "OK"@, middle));
}

/// A value that holds no line feed is written without one.
pub proof fn lemma_rendered_single_line(value: Value)
    requires
        plain_value(value),
        value.well_formed(),
    ensures
        single_line(rendered(value)),
{
    reveal_strlit("\"");
    reveal_strlit("true");
    reveal_strlit("false");
    match value {
        Value::Str(text) => {
            lemma_single_line_concat("\""@, text);
            lemma_single_line_concat("\""@ + text, "\""@);
        },
        Value::Int(number) => {
            lemma_signed_decimal_single_line(number);
        },
        Value::Float(text) => {
            lemma_float_text_single_line(text);
        },
        _ => {},
    }
}

/// The digits of a number hold no line feed.
pub proof fn lemma_decimal_single_line(n: nat)
    ensures
        single_line(decimal(n)),
{
    lemma_decimal_plain(n);
}

/// The decimal form of an integer holds no line feed.
pub proof fn lemma_signed_decimal_single_line(i: int)
    ensures
        single_line(signed_decimal(i)),
{
    if i < 0 {
        lemma_decimal_single_line((-i) as nat);
        lemma_single_line_concat(seq!['-'], decimal((-i) as nat));
    } else {
        lemma_decimal_single_line(i as nat);
    }
}

/// Values that hold no line feed are written without one.
pub proof fn lemma_joined_single_line(list: Seq<Value>)
    requires
        plain_values(list),
        formed_values(list),
    ensures
        single_line(joined(list)),
    decreases list.len(),
{
    reveal_strlit(",");
    if list.len() == 1 {
        lemma_rendered_single_line(list[0]);
    } else if list.len() > 1 {
        assert forall|i: int| 0 <= i < list.drop_last().len() implies plain_value(
            #[trigger] list.drop_last()[i],
        ) && list.drop_last()[i].well_formed() by {
            assert(list.drop_last()[i] == list[i]);
        }
        lemma_joined_single_line(list.drop_last());
        lemma_rendered_single_line(list.last());
        lemma_single_line_concat(joined(list.drop_last()), ","@);
        lemma_single_line_concat(joined(list.drop_last()) + ","@, rendered(list.last()));
    }
}

/// The frame of a result whose values hold no line feed lies in the envelope.
pub proof fn lemma_response_frame(response: Response, database_type: DatabaseType)
    requires
        plain_response(response),
        formed_response(response),
    ensures
        in_envelope(response_frame(response, database_type)),
        in_ok_envelope(response_frame(response, database_type)),
{
    reveal_strlit("GET");
    reveal_strlit("GET RANGE");
    reveal_strlit("GET MANY");
    reveal_strlit("DEL");
    reveal_strlit("DEL RANGE");
    reveal_strlit("DEL MANY");
    reveal_strlit("SET");
    reveal_strlit("SET MANY");
    reveal_strlit("AUTH");
    reveal_strlit("CLEAR");
    reveal_strlit("LEN");
    reveal_strlit("PING");
    reveal_strlit("PONG");
    reveal_strlit("EXISTS");
    reveal_strlit("SHUTDOWN");
    reveal_strlit("true");
    reveal_strlit("false");
    lemma_type_name_single_line(database_type);
    match response {
        Response::GET_OK(value) => {
            lemma_rendered_single_line(value);
        },
        Response::GET_RANGE_OK(list) => {
            lemma_joined_single_line(list);
        },
        Response::GET_MANY_OK(list) => {
            lemma_joined_single_line(list);
        },
        Response::LEN_OK(n) => {
            lemma_decimal_single_line(n);
        },
        _ => {},
    }
    lemma_ok_frame(
        identifier(response),
        content(response),
        if carries_values(response) {
            Some(database_type.name())
        } else {
            None
        },
    );
}

/// The text of a parser error holds no line feed if what it reports holds none.
pub proof fn lemma_parser_message(kind: ParserErrorKind)
    requires
        plain_parser_error(kind),
    ensures
        single_line(kind.message()),
{
    reveal_strlit("ParserError ");
    let head = "ParserError "@;
    match kind {
        ParserErrorKind::InvalidRange(n) => {
            reveal_strlit("'invalidRange': Expected two keys got ");
            reveal_strlit(".");
            lemma_decimal_single_line(n);
            lemma_single_line_concat(head, "'invalidRange': Expected two keys got "@);
            lemma_single_line_concat(head + "'invalidRange': Expected two keys got "@, decimal(n));
            lemma_single_line_concat(
                head + "'invalidRange': Expected two keys got "@ + decimal(n),
                "."@,
            );
        },
        ParserErrorKind::UnexpectedCharacter => {
            reveal_strlit(
                "'unexpectedCharacter': Spaces, commata and slashes are not allowed in keys unless it is in quotes.",
            );
            lemma_single_line_concat(
                head,
                "'unexpectedCharacter': Spaces, commata and slashes are not allowed in keys unless it is in quotes."@,
            );
        },
        ParserErrorKind::InvalidKeyValuePair(n) => {
            reveal_strlit(
                "'invalidKeyValuePair': Expected two parameters (key and value), found ",
            );
            reveal_strlit(".");
            let text = "'invalidKeyValuePair': Expected two parameters (key and value), found "@;
            lemma_decimal_single_line(n);
            lemma_single_line_concat(head, text);
            lemma_single_line_concat(head + text, decimal(n));
            lemma_single_line_concat(head + text + decimal(n), "."@);
        },
        ParserErrorKind::UnknownQueryOperation(line) => {
            reveal_strlit("'unknownQueryOperation': Query '");
            reveal_strlit("' not recognized.");
            let text = "'unknownQueryOperation': Query '"@;
            lemma_single_line_concat(head, text);
            lemma_single_line_concat(head + text, line);
            lemma_single_line_concat(head + text + line, "' not recognized."@);
        },
        ParserErrorKind::WrongValueType(name) => {
            reveal_strlit("'wrongValueType': The value doesn't match the database type '");
            reveal_strlit("'.");
            let text = "'wrongValueType': The value doesn't match the database type '"@;
            lemma_single_line_concat(head, text);
            lemma_single_line_concat(head + text, name);
            lemma_single_line_concat(head + text + name, "'."@);
        },
        ParserErrorKind::WrongAuthentication => {
            reveal_strlit(
                "'wrongAuthentication': Couldn't read password. Expected: 'AUTH <password>'.",
            );
            lemma_single_line_concat(
                head,
                "'wrongAuthentication': Couldn't read password. Expected: 'AUTH <password>'."@,
            );
        },
        ParserErrorKind::StringQuotesNotFound => {
            reveal_strlit("'stringQuotesNotFound': Expected double quotes around strings.");
            lemma_single_line_concat(
                head,
                "'stringQuotesNotFound': Expected double quotes around strings."@,
            );
        },
        ParserErrorKind::UnexpectedParameters(command) => {
            reveal_strlit("'unexpectedParameters': The command '");
            reveal_strlit("' doesn't take any parameters.");
            let text = "'unexpectedParameters': The command '"@;
            lemma_single_line_concat(head, text);
            lemma_single_line_concat(head + text, command);
            lemma_single_line_concat(head + text + command, "' doesn't take any parameters."@);
        },
        ParserErrorKind::UnescapedDoubleQuote => {
            reveal_strlit("'unescapedDoubleQuote': Double quotes must be escaped.");
            lemma_single_line_concat(
                head,
                "'unescapedDoubleQuote': Double quotes must be escaped."@,
            );
        },
    }
}

/// The text of a store error holds no line feed if the key it reports holds none.
pub proof fn lemma_database_message(kind: DatabaseErrorKind)
    requires
        plain_database_error(kind),
    ensures
        single_line(kind.message()),
{
    reveal_strlit("DatabaseError ");
    let head = "DatabaseError "@;
    match kind {
        DatabaseErrorKind::KeyNotFound(key) => {
            reveal_strlit("'keyNotFound': The key '");
            reveal_strlit("' doesn't exist.");
            lemma_single_line_concat(head, "'keyNotFound': The key '"@);
            lemma_single_line_concat(head + "'keyNotFound': The key '"@, key);
            lemma_single_line_concat(head + "'keyNotFound': The key '"@ + key, "' doesn't exist."@);
        },
        DatabaseErrorKind::InvalidRangeOrder => {
            reveal_strlit("'invalidRangeOrder': The lower key is bigger than the upper key.");
            lemma_single_line_concat(
                head,
                "'invalidRangeOrder': The lower key is bigger than the upper key."@,
            );
        },
        DatabaseErrorKind::WrongValueType => {
            reveal_strlit("'wrongValueType': The value doesn't match the database type.");
            lemma_single_line_concat(
                head,
                "'wrongValueType': The value doesn't match the database type."@,
            );
        },
    }
}

/// The text of an authentication error holds no line feed.
pub proof fn lemma_authentication_message(error_type: AuthenticationErrorType)
    ensures
        single_line(error_type.message()),
{
    reveal_strlit("AuthenticationError ");
    reveal_strlit("'notAuthenticated': Please authenticate before executing queries.");
    reveal_strlit("'authenticationFailed': Wrong password.");
    lemma_single_line_concat(
        "AuthenticationError "@,
        "'notAuthenticated': Please authenticate before executing queries."@,
    );
    lemma_single_line_concat(
        "AuthenticationError "@,
        "'authenticationFailed': Wrong password."@,
    );
}

/// The text of a protocol error holds no line feed if the start marker that
/// it reports holds none.
pub proof fn lemma_protocol_message(kind: ProtocolErrorKind)
    requires
        kind matches ProtocolErrorKind::StartMarkerNotFound(marker) ==> single_line(marker),
    ensures
        single_line(kind.message()),
{
    reveal_strlit("ProtocolError ");
    let head = "ProtocolError "@;
    match kind {
        ProtocolErrorKind::EmptyRequest => {
            reveal_strlit("'emptyRequest': Can't process empty request.");
            lemma_single_line_concat(head, "'emptyRequest': Can't process empty request."@);
        },
        ProtocolErrorKind::StartMarkerNotFound(marker) => {
            reveal_strlit("'startMarkerNotFound': Expected request to start with '");
            reveal_strlit("'.");
            let text = "'startMarkerNotFound': Expected request to start with '"@;
            lemma_single_line_concat(head, text);
            lemma_single_line_concat(head + text, marker);
            lemma_single_line_concat(head + text + marker, "'."@);
        },
        ProtocolErrorKind::EndMarkerNotFound(marker) => {
            reveal_strlit("'endMarkerNotFound': Expected request to end with '");
            reveal_strlit("'.");
            let text = "'endMarkerNotFound': Expected request to end with '"@;
            lemma_escape_newlines_single_line(marker);
            lemma_single_line_concat(head, text);
            lemma_single_line_concat(head + text, crate::text::escape_newlines(marker));
            lemma_single_line_concat(head + text + crate::text::escape_newlines(marker), "'."@);
        },
    }
}

/// The values of the first keys hold no line feed if the map holds none.
pub proof fn lemma_many_values_plain(map: Map<Seq<char>, Value>, keys: Seq<Seq<char>>, n: int)
    requires
        plain_map(map),
        forall|key: Seq<char>| #[trigger] map.contains_key(key) ==> map[key].well_formed(),
        plain_texts(keys),
        0 <= n <= keys.len(),
    ensures
        match many_values(map, keys, n) {
            Ok(found) => plain_values(found) && formed_values(found),
            Err(kind) => plain_database_error(kind),
        },
    decreases n,
{
    if n > 0 {
        lemma_many_values_plain(map, keys, n - 1);
        assert(single_line(keys[n - 1]));
    }
}

/// What a store without line feeds answers to a request without line feeds
/// holds none either.
pub proof fn lemma_response_plain(store: Database, request: Request)
    requires
        store.wf(),
        plain_map(store@),
        plain_request(request),
    ensures
        match response_to(store, request) {
            Ok(response) => plain_response(response) && formed_response(response),
            Err(kind) => plain_database_error(kind),
        },
{
    assert forall|key: Seq<char>| #[trigger]
        store@.contains_key(key) implies store@[key].well_formed() by {
        store.lemma_type_discipline(key);
    }
    match request {
        Request::GET_RANGE { key_lower, key_upper } => {
            let found = pairs_between(store.entries(), key_lower, key_upper);
            store.lemma_range_order(key_lower, key_upper);
            assert forall|i: int| 0 <= i < values_of(found).len() implies plain_value(
                #[trigger] values_of(found)[i],
            ) && values_of(found)[i].well_formed() by {
                let pair = found[i];
                assert(store@.contains_key(pair.key));
            }
        },
        Request::GET_MANY(keys) => {
            lemma_many_values_plain(store@, keys, keys.len() as int);
        },
        _ => {},
    }
}

/// What a client is answered holds no line feed, if neither the store nor
/// the request holds one.
pub proof fn lemma_reply_in_envelope(before: State, address: Seq<char>, request: Request)
    requires
        before.wf(),
        plain_map(before.db()@),
        plain_request(request),
    ensures
        step_for(reply_to(before, address, request), before.kind()).frame() matches Some(frame)
            && in_envelope(frame),
{
    before.lemma_wf();
    lemma_authentication_message(AuthenticationErrorType::AuthenticationFailed);
    lemma_authentication_message(AuthenticationErrorType::NotAuthenticated);
    lemma_response_plain(before.db(), request);
    match reply_to(before, address, request) {
        Ok(response) => {
            lemma_response_frame(response, before.kind());
        },
        Err(message) => {
            if !(request is AUTH) && before.sessions().contains(address) {
                lemma_database_message(response_to(before.db(), request)->Err_0);
            }
            lemma_error_frame(message);
        },
    }
}

/// Every answer to a line lies in the envelope of the protocol, if the line
/// holds no line feed but at its end and the store holds none.
pub proof fn lemma_reaction_in_envelope(before: State, address: Seq<char>, line: Seq<char>)
    requires
        before.wf(),
        plain_map(before.db()@),
        one_line(line),
    ensures
        reaction(before, address, line).frame() matches Some(frame) && in_envelope(frame),
{
    reveal_strlit("CASP/");
    reveal_strlit("/\n");
    match frame_fault(line) {
        Some(kind) => {
            lemma_protocol_message(kind);
            lemma_error_frame(kind.message());
        },
        None => {
            lemma_body_single_line(line);
            let body = body_of(line);
            lemma_request_plain(body, before.kind());
            match request_of(body, before.kind()) {
                Err(kind) => {
                    lemma_parser_message(kind);
                    lemma_error_frame(kind.message());
                },
                Ok(request) => {
                    lemma_reply_in_envelope(before, address, request);
                },
            }
        },
    }
}

/// The request inside a frame holds no line feed, if the line holds none
/// but at its end.
pub proof fn lemma_body_single_line(line: Seq<char>)
    requires
        one_line(line),
        frame_fault(line) is None,
    ensures
        single_line(body_of(line)),
{
    reveal_strlit("CASP/");
    reveal_strlit("/\n");
    let inner = line.subrange(5, line.len() - 2);
    lemma_single_line_subrange(line.drop_last(), 5, line.len() - 2);
    assert(inner =~= line.drop_last().subrange(5, line.len() - 2));
    lemma_single_line_trimmed(inner, 0, inner.len() as int, true);
}

/// The notice of a shutdown lies in the envelope of the protocol.
pub proof fn lemma_shutdown_notice_in_envelope()
    ensures
        in_envelope(warn_frame("SHUTDOWN"@)),
{
    reveal_strlit("SHUTDOWN");
    lemma_warn_frame("SHUTDOWN"@);
}

/// The map after pairs without line feeds were stored holds none, if it held none.
pub proof fn lemma_with_pairs_plain(map: Map<Seq<char>, Value>, list: Seq<Pair>, n: int)
    requires
        plain_map(map),
        plain_pairs(list),
        0 <= n <= list.len(),
    ensures
        plain_map(with_pairs(map, list, n)),
    decreases n,
{
    if n > 0 {
        lemma_with_pairs_plain(map, list, n - 1);
        assert(plain_pair(list[n - 1]));
    }
}

/// The map after keys were deleted holds no line feed, if it held none.
pub proof fn lemma_without_keys_plain(map: Map<Seq<char>, Value>, keys: Seq<Seq<char>>, n: int)
    requires
        plain_map(map),
    ensures
        plain_map(without_keys(map, keys, n)),
    decreases n,
{
    if n > 0 {
        lemma_without_keys_plain(map, keys, n - 1);
    }
}

/// A request without line feeds leaves a store without line feeds as one.
pub proof fn lemma_store_stays_plain(
    before: State,
    address: Seq<char>,
    request: Request,
    after: State,
)
    requires
        plain_map(before.db()@),
        plain_request(request),
        state_after(before, address, request, after),
    ensures
        plain_map(after.db()@),
{
    if !(request is AUTH) && before.sessions().contains(address) {
        let old_map = before.db()@;
        match request {
            Request::SET_MANY(list) => {
                if all_typed(list, before.db().kind()) {
                    lemma_with_pairs_plain(old_map, list, list.len() as int);
                }
            },
            Request::DEL_MANY(keys) => {
                lemma_without_keys_plain(old_map, keys, keys.len() as int);
            },
            _ => {},
        }
    }
}

/// A line without a line feed but at its end leaves a store without line
/// feeds as one, whatever it asks for.
pub proof fn lemma_line_keeps_store_plain(
    before: State,
    address: Seq<char>,
    line: Seq<char>,
    after: State,
)
    requires
        plain_map(before.db()@),
        one_line(line),
        frame_fault(line) is None,
        request_of(body_of(line), before.kind()) matches Ok(request) && state_after(
            before,
            address,
            request,
            after,
        ),
    ensures
        plain_map(after.db()@),
{
    lemma_body_single_line(line);
    lemma_request_plain(body_of(line), before.kind());
    let request = request_of(body_of(line), before.kind())->Ok_0;
    lemma_store_stays_plain(before, address, request, after);
}

/// The names of the types hold no line feed.
pub proof fn lemma_type_name_single_line(database_type: DatabaseType)
    ensures
        single_line(database_type.name()),
{
    reveal_strlit("STR");
    reveal_strlit("INT");
    reveal_strlit("FLOAT");
    reveal_strlit("BOOL");
    reveal_strlit("JSON");
}

/// The parts of a text without a line feed hold none either.
pub proof fn lemma_split_single_line(s: Seq<char>, delimiter: char)
    requires
        single_line(s),
    ensures
        plain_texts(split(s, delimiter)),
{
    let n = s.len() as int;
    lemma_closed_parts_single_line(s, delimiter, n);
    lemma_part_start_bounds(s, delimiter, n);
    lemma_single_line_trimmed(s, part_start(s, delimiter, n), n, false);
}

proof fn lemma_closed_parts_single_line(s: Seq<char>, delimiter: char, n: int)
    requires
        single_line(s),
        0 <= n <= s.len(),
    ensures
        plain_texts(closed_parts(s, delimiter, n)),
    decreases n,
{
    if n > 0 {
        lemma_closed_parts_single_line(s, delimiter, n - 1);
        lemma_part_start_bounds(s, delimiter, n - 1);
        lemma_single_line_trimmed(s, part_start(s, delimiter, n - 1), n - 1, false);
    }
}

/// The key of a token without a line feed holds none either.
pub proof fn lemma_key_single_line(token: Seq<char>)
    requires
        single_line(token),
        key_of(token) is Some,
    ensures
        single_line(key_of(token)->0),
{
    if is_quoted(token) && token.len() > 2 {
        lemma_single_line_subrange(token, 1, token.len() - 1);
    }
}

/// The value of a token without a line feed holds none either, and neither
/// does the error if the token stands for no value.
pub proof fn lemma_value_plain(token: Seq<char>, database_type: DatabaseType)
    requires
        single_line(token),
    ensures
        plain_parsed(value_of(token, database_type), |value: Value| plain_value(value)),
{
    lemma_type_name_single_line(database_type);
    if is_quoted(token) && token.len() >= 2 {
        lemma_single_line_subrange(token, 1, token.len() - 1);
    }
}

/// The pair of a chunk without a line feed holds none either.
pub proof fn lemma_pair_plain(chunk: Seq<char>, database_type: DatabaseType)
    requires
        single_line(chunk),
    ensures
        plain_parsed(pair_of(chunk, database_type), |pair: Pair| plain_pair(pair)),
{
    let parts = split(chunk, ' ');
    lemma_split_single_line(chunk, ' ');
    if parts.len() == 2 {
        assert(single_line(parts[0]));
        assert(single_line(parts[1]));
        if key_of(parts[0]) is Some {
            lemma_key_single_line(parts[0]);
            lemma_value_plain(parts[1], database_type);
        }
    }
}

/// The pairs of chunks without a line feed hold none either.
pub proof fn lemma_pairs_plain(chunks: Seq<Seq<char>>, database_type: DatabaseType, n: int)
    requires
        plain_texts(chunks),
        0 <= n <= chunks.len(),
    ensures
        plain_parsed(pairs_of(chunks, database_type, n), |list: Seq<Pair>| plain_pairs(list)),
    decreases n,
{
    if n > 0 {
        lemma_pairs_plain(chunks, database_type, n - 1);
        assert(single_line(chunks[n - 1]));
        lemma_pair_plain(chunks[n - 1], database_type);
    }
}

/// The keys of tokens without a line feed hold none either.
pub proof fn lemma_keys_plain(tokens: Seq<Seq<char>>)
    requires
        plain_texts(tokens),
    ensures
        plain_parsed(keys_of(tokens), |keys: Seq<Seq<char>>| plain_texts(keys)),
{
    if keys_of(tokens) is Ok {
        let keys = keys_of(tokens)->Ok_0;
        assert forall|i: int| 0 <= i < keys.len() implies single_line(#[trigger] keys[i]) by {
            assert(single_line(tokens[i]));
            assert(key_of(tokens[i]) is Some);
            lemma_key_single_line(tokens[i]);
        }
    }
}

/// The keys of a range without a line feed hold none either.
pub proof fn lemma_ranged_keys_plain(query_keys: Seq<char>)
    requires
        single_line(query_keys),
    ensures
        plain_parsed(ranged_keys(query_keys), |keys: Seq<Seq<char>>| plain_texts(keys)),
        ranged_keys(query_keys) matches Ok(keys) ==> keys.len() == 2,
{
    let tokens = split(query_keys, ' ');
    lemma_split_single_line(query_keys, ' ');
    if ranged_keys(query_keys) is Ok {
        assert(single_line(tokens[0]));
        assert(single_line(tokens[1]));
        lemma_key_single_line(tokens[0]);
        lemma_key_single_line(tokens[1]);
    }
}

/// What stands behind a prefix of a text without a line feed holds none either.
pub proof fn lemma_behind_single_line(line: Seq<char>, prefix: Seq<char>)
    requires
        single_line(line),
        prefix.is_prefix_of(line),
    ensures
        single_line(behind(line, prefix)),
{
    lemma_single_line_subrange(line, prefix.len() as int, line.len() as int);
}

/// A request that is parsed from a line without a line feed holds none
/// either, and neither does the error if the line stands for no request.
pub proof fn lemma_request_plain(line: Seq<char>, database_type: DatabaseType)
    requires
        single_line(line),
    ensures
        plain_parsed(request_of(line, database_type), |request: Request| plain_request(request)),
{
    reveal_strlit("CLEAR");
    reveal_strlit("LEN");
    reveal_strlit("PING");
    reveal_strlit("SHUTDOWN");
    if "GET "@.is_prefix_of(line) {
        let query = behind(line, "GET "@);
        lemma_behind_single_line(line, "GET "@);
        lemma_keyed_plain(query);
        assert(plain_parsed(get_request(query), |request: Request| plain_request(request)));
    } else if "DEL "@.is_prefix_of(line) {
        let query = behind(line, "DEL "@);
        lemma_behind_single_line(line, "DEL "@);
        lemma_keyed_plain(query);
        assert(plain_parsed(del_request(query), |request: Request| plain_request(request)));
    } else if "SET "@.is_prefix_of(line) {
        let query = behind(line, "SET "@);
        lemma_behind_single_line(line, "SET "@);
        if "MANY "@.is_prefix_of(query) {
            lemma_behind_single_line(query, "MANY "@);
            let chunks = split(behind(query, "MANY "@), ',');
            lemma_split_single_line(behind(query, "MANY "@), ',');
            lemma_pairs_plain(chunks, database_type, chunks.len() as int);
        } else {
            lemma_pair_plain(query, database_type);
        }
        assert(plain_parsed(
            set_request(query, database_type),
            |request: Request| plain_request(request),
        ));
    } else if "AUTH "@.is_prefix_of(line) {
        assert(plain_parsed(
            auth_request(behind(line, "AUTH "@)),
            |request: Request| plain_request(request),
        ));
    } else if "CLEAR"@.is_prefix_of(line) {
    } else if "LEN"@.is_prefix_of(line) {
    } else if "PING"@.is_prefix_of(line) {
    } else if "EXISTS "@.is_prefix_of(line) {
        let query = behind(line, "EXISTS "@);
        lemma_behind_single_line(line, "EXISTS "@);
        if key_of(query) is Some {
            lemma_key_single_line(query);
        }
        assert(plain_parsed(exists_request(query), |request: Request| plain_request(request)));
    } else if "SHUTDOWN"@.is_prefix_of(line) {
    }
}

/// The keys behind `GET` or `DEL` hold no line feed if the line holds none.
proof fn lemma_keyed_plain(query: Seq<char>)
    requires
        single_line(query),
    ensures
        plain_parsed(get_request(query), |request: Request| plain_request(request)),
        plain_parsed(del_request(query), |request: Request| plain_request(request)),
{
    if "RANGE "@.is_prefix_of(query) {
        lemma_behind_single_line(query, "RANGE "@);
        lemma_ranged_keys_plain(behind(query, "RANGE "@));
        if ranged_keys(behind(query, "RANGE "@)) is Ok {
            let keys = ranged_keys(behind(query, "RANGE "@))->Ok_0;
            assert(single_line(keys[0]));
            assert(single_line(keys[1]));
        }
    } else if "MANY "@.is_prefix_of(query) {
        lemma_behind_single_line(query, "MANY "@);
        lemma_split_single_line(behind(query, "MANY "@), ' ');
        lemma_keys_plain(split(behind(query, "MANY "@), ' '));
    } else if key_of(query) is Some {
        lemma_key_single_line(query);
    }
}

} // verus!
