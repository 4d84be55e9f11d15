//! What the server encodes the client reads back: the frame of every result,
//! of every error and of a warning is read as that status, that command and
//! that content.
//!
//! The frame of an error and the frame of a result with values are read as a
//! whole, so that the message and the values may hold slashes and double
//! quotes. A warning is read part by part: it is read back if splitting at
//! slashes leaves its message as it is.

use crate::client::parser::{
    answer_of, answer_of_parts, behind_part, behind_type, closed_content, error_message,
    typed_values, value_command, Answer, Fault, ResponseStatus,
};
use crate::joining::{balanced, lemma_split_joined, lemma_split_simple, simple, unsplit};
use crate::numbers::{decimal, lemma_decimal_plain};
use crate::parser::split;
use crate::response::{
    carries_values, content, error_frame, identifier, response_frame, warn_frame,
};
use crate::schemas::{DatabaseType, Response};
use vstd::prelude::*;

verus! {

/// What the client reads from the frame of a result.
pub open spec fn answer_to(response: Response) -> Answer {
    Answer {
        status: ResponseStatus::OK,
        command: Some(identifier(response)),
        value: content(response),
    }
}

/// Three simple texts and a last one, joined by slashes, split into the
/// three and the parts of the last.
pub proof fn lemma_split_frame(
    first: Seq<char>,
    second: Seq<char>,
    third: Seq<char>,
    last: Seq<char>,
)
    requires
        simple(first, '/'),
        simple(second, '/'),
        unsplit(third, '/'),
        balanced(third),
    ensures
        split(first + seq!['/'] + second + seq!['/'] + third + seq!['/'] + last, '/') == seq![
            first,
            second,
            third,
        ] + split(last, '/'),
{
    let slash = seq!['/'];
    let whole = first + slash + second + slash + third + slash + last;
    lemma_split_simple(first, '/');
    lemma_split_simple(second, '/');
    lemma_split_joined(third, last, '/');
    lemma_split_joined(second, third + slash + last, '/');
    lemma_split_joined(first, second + slash + (third + slash + last), '/');
    assert(whole =~= first + slash + (second + slash + (third + slash + last)));
    assert(seq![first] + (seq![second] + (seq![third] + split(last, '/'))) =~= seq![
        first,
        second,
        third,
    ] + split(last, '/'));
}

/// The digits of a number are a simple text.
pub proof fn lemma_decimal_simple(n: nat)
    ensures
        simple(decimal(n), '/'),
{
    lemma_decimal_plain(n);
}

/// A text that starts with a word and a slash has the rest behind them.
pub proof fn lemma_behind_part(word: Seq<char>, rest: Seq<char>)
    ensures
        behind_part(word + seq!['/'] + rest, word) == Some(rest),
{
    let text = word + seq!['/'] + rest;
    assert(text.subrange(0, word.len() as int) =~= word);
    assert(text[word.len() as int] == '/');
    assert(text.skip(word.len() as int + 1) =~= rest);
}

/// A text that differs from a word at some position does not start with it.
pub proof fn lemma_not_behind(text: Seq<char>, word: Seq<char>, at: int)
    requires
        0 <= at < word.len(),
        at < text.len() ==> text[at] != word[at],
    ensures
        behind_part(text, word) is None,
{
    if word.is_prefix_of(text) {
        assert(text.subrange(0, word.len() as int)[at] == word[at]);
    }
}

/// A content with the slash and the line feed that close a frame behind it
/// is read as that content.
pub proof fn lemma_closed_content(content: Seq<char>)
    ensures
        closed_content(content + seq!['/'] + "\n"@) == Some(content),
{
    reveal_strlit("\n");
    let body = content + seq!['/'] + "\n"@;
    assert(body.take(body.len() - 2) =~= content);
}

/// The frame of a result is neither read as an error nor, if it carries no
/// values, as a frame that names the type of the store.
proof fn lemma_read_in_parts(response: Response, database_type: DatabaseType)
    requires
        !carries_values(response),
    ensures
        error_message(response_frame(response, database_type)) is None,
        typed_values(response_frame(response, database_type)) is None,
{
    reveal_strlit("CASP/OK/");
    reveal_strlit("CASP");
    reveal_strlit("OK");
    reveal_strlit("ERROR");
    reveal_strlit("/");
    reveal_strlit("STR");
    reveal_strlit("INT");
    reveal_strlit("FLOAT");
    reveal_strlit("BOOL");
    reveal_strlit("JSON");
    reveal_strlit("DEL");
    reveal_strlit("DEL RANGE");
    reveal_strlit("DEL MANY");
    reveal_strlit("SET");
    reveal_strlit("SET MANY");
    reveal_strlit("AUTH");
    reveal_strlit("CLEAR");
    reveal_strlit("LEN");
    reveal_strlit("PING");
    reveal_strlit("EXISTS");
    reveal_strlit("SHUTDOWN");
    let slash = seq!['/'];
    let name = identifier(response);
    let frame = response_frame(response, database_type);
    let rest = match content(response) {
        Some(text) => name + slash + text + slash + "\n"@,
        None => name + slash + "\n"@,
    };
    assert("/"@ =~= slash);
    assert(frame =~= "CASP"@ + slash + ("OK"@ + slash + rest));
    lemma_behind_part("CASP"@, "OK"@ + slash + rest);
    lemma_behind_part("OK"@, rest);
    lemma_not_behind("OK"@ + slash + rest, "ERROR"@, 0);
    assert(rest[0] == name[0]);
    assert(rest[1] == name[1]);
    lemma_not_behind(
        rest,
        "STR"@,
        if name[0] == 'S' {
            1
        } else {
            0
        },
    );
    lemma_not_behind(rest, "INT"@, 0);
    lemma_not_behind(rest, "FLOAT"@, 0);
    lemma_not_behind(rest, "BOOL"@, 0);
    lemma_not_behind(rest, "JSON"@, 0);
}

/// The frame of a result with values is read as a whole: as its command and
/// the values as they were written.
proof fn lemma_read_as_a_whole(response: Response, database_type: DatabaseType)
    requires
        carries_values(response),
    ensures
        error_message(response_frame(response, database_type)) is None,
        typed_values(response_frame(response, database_type)) == Some(
            (identifier(response), content(response)->0),
        ),
{
    reveal_strlit("CASP/OK/");
    reveal_strlit("CASP");
    reveal_strlit("OK");
    reveal_strlit("ERROR");
    reveal_strlit("/");
    reveal_strlit("\n");
    reveal_strlit("STR");
    reveal_strlit("INT");
    reveal_strlit("FLOAT");
    reveal_strlit("BOOL");
    reveal_strlit("JSON");
    reveal_strlit("GET");
    reveal_strlit("GET RANGE");
    reveal_strlit("GET MANY");
    let slash = seq!['/'];
    let name = identifier(response);
    let kind = database_type.name();
    let text = content(response)->0;
    let frame = response_frame(response, database_type);
    let body = text + slash + "\n"@;
    let named = name + slash + body;
    let typed = kind + slash + named;
    assert("/"@ =~= slash);
    assert(frame =~= "CASP"@ + slash + ("OK"@ + slash + typed));
    lemma_behind_part("CASP"@, "OK"@ + slash + typed);
    lemma_behind_part("OK"@, typed);
    lemma_not_behind("OK"@ + slash + typed, "ERROR"@, 0);
    assert(typed[0] == kind[0]);
    if database_type != DatabaseType::Str {
        lemma_not_behind(typed, "STR"@, 0);
    }
    if database_type != DatabaseType::Int {
        lemma_not_behind(typed, "INT"@, 0);
    }
    if database_type != DatabaseType::Float {
        lemma_not_behind(typed, "FLOAT"@, 0);
    }
    if database_type != DatabaseType::Bool {
        lemma_not_behind(typed, "BOOL"@, 0);
    }
    lemma_behind_part(kind, named);
    assert(behind_type(typed) == Some(named));
    assert(named[3] == name[3] || name.len() == 3);
    assert(named.len() > 4);
    assert(named[4] == name[4] || name.len() == 3);
    if response is GET_OK {
        lemma_behind_part("GET"@, body);
    } else {
        assert("GET"@.is_prefix_of(named) ==> named[3] != '/');
        assert(behind_part(named, "GET"@) is None);
        if response is GET_RANGE_OK {
            lemma_behind_part("GET RANGE"@, body);
        } else {
            lemma_not_behind(named, "GET RANGE"@, 4);
            lemma_behind_part("GET MANY"@, body);
        }
    }
    assert(value_command(named) == Some((name, body)));
    lemma_closed_content(text);
    assert(body =~= text + seq!['/'] + "\n"@);
}

/// Every result is read back: the frame of a result is read as the command
/// and the content of that result.
pub proof fn lemma_round_trip(response: Response, database_type: DatabaseType)
    ensures
        answer_of(response_frame(response, database_type)) == Ok::<Answer, Fault>(
            answer_to(response),
        ),
{
    if carries_values(response) {
        lemma_read_as_a_whole(response, database_type);
    } else {
        lemma_read_in_parts(response, database_type);
        lemma_round_trip_parts(response, database_type);
    }
}

/// The parts of the frame of a result without values say the command and
/// the content of that result.
proof fn lemma_round_trip_parts(response: Response, database_type: DatabaseType)
    requires
        !carries_values(response),
    ensures
        answer_of_parts(split(response_frame(response, database_type), '/')) == Ok::<
            Answer,
            Fault,
        >(answer_to(response)),
{
    reveal_strlit("CASP/OK/");
    reveal_strlit("CASP");
    reveal_strlit("OK");
    reveal_strlit("WARN");
    reveal_strlit("ERROR");
    reveal_strlit("/");
    reveal_strlit("\n");
    reveal_strlit("GET");
    reveal_strlit("DEL");
    reveal_strlit("DEL RANGE");
    reveal_strlit("DEL MANY");
    reveal_strlit("SET");
    reveal_strlit("SET MANY");
    reveal_strlit("AUTH");
    reveal_strlit("CLEAR");
    reveal_strlit("LEN");
    reveal_strlit("PING");
    reveal_strlit("PONG");
    reveal_strlit("EXISTS");
    reveal_strlit("SHUTDOWN");
    reveal_strlit("true");
    reveal_strlit("false");
    let slash = seq!['/'];
    let name = identifier(response);
    let frame = response_frame(response, database_type);
    assert("/"@ =~= slash);
    assert("CASP/OK/"@ =~= "CASP"@ + slash + "OK"@ + slash);
    lemma_split_simple(name, '/');
    lemma_split_simple("\n"@, '/');
    match content(response) {
        Some(text) => {
            if response is LEN_OK {
                lemma_decimal_simple(response->LEN_OK_0);
            }
            let last = text + slash + "\n"@;
            lemma_split_simple(text, '/');
            lemma_split_joined(text, "\n"@, '/');
            assert(frame =~= "CASP"@ + slash + "OK"@ + slash + name + slash + last);
            lemma_split_frame("CASP"@, "OK"@, name, last);
            let parts = seq!["CASP"@, "OK"@, name, text, "\n"@];
            assert(split(frame, '/') =~= parts);
            assert(parts[2] == name);
            assert(!"GET"@.is_prefix_of(name)) by {
                assert("GET"@[0] != name[0]);
            }
            assert("EXISTS"@.is_prefix_of(name) || "PING"@.is_prefix_of(name)
                || "LEN"@.is_prefix_of(name)) by {
                assert(name.subrange(0, name.len() as int) =~= name);
            }
            assert(answer_of_parts(parts) == Ok::<Answer, Fault>(answer_to(response)));
        },
        None => {
            assert(frame =~= "CASP"@ + slash + "OK"@ + slash + name + slash + "\n"@);
            lemma_split_frame("CASP"@, "OK"@, name, "\n"@);
            let parts = seq!["CASP"@, "OK"@, name, "\n"@];
            assert(split(frame, '/') =~= parts);
            assert(parts[2] == name);
            assert(!"GET"@.is_prefix_of(name)) by {
                assert("GET"@[0] != name[0]);
            }
            assert(!"EXISTS"@.is_prefix_of(name)) by {
                if name.len() >= 2 {
                    assert("EXISTS"@[0] != name[0] || "EXISTS"@[1] != name[1]);
                }
            }
            assert(!"PING"@.is_prefix_of(name)) by {
                assert("PING"@[0] != name[0]);
            }
            assert(!"LEN"@.is_prefix_of(name)) by {
                assert("LEN"@[0] != name[0]);
            }
            assert(answer_of_parts(parts) == Ok::<Answer, Fault>(answer_to(response)));
        },
    }
}

/// Every error is read back: the frame of an error is read as that error
/// with its message as it was written.
pub proof fn lemma_round_trip_error(message: Seq<char>)
    ensures
        answer_of(error_frame(message)) == Ok::<Answer, Fault>(
            Answer { status: ResponseStatus::ERROR, command: None, value: Some(message) },
        ),
{
    reveal_strlit("CASP/ERROR/");
    reveal_strlit("CASP");
    reveal_strlit("ERROR");
    reveal_strlit("/");
    let slash = seq!['/'];
    let frame = error_frame(message);
    let body = message + slash + "\n"@;
    assert("/"@ =~= slash);
    assert(frame =~= "CASP"@ + slash + ("ERROR"@ + slash + body));
    lemma_behind_part("CASP"@, "ERROR"@ + slash + body);
    lemma_behind_part("ERROR"@, body);
    lemma_closed_content(message);
}

/// The frame of a warning is read back as that warning, if splitting leaves
/// its message as it is and the double quotes of the message pair up.
pub proof fn lemma_round_trip_warn(message: Seq<char>)
    requires
        unsplit(message, '/'),
        balanced(message),
    ensures
        answer_of(warn_frame(message)) == Ok::<Answer, Fault>(
            Answer { status: ResponseStatus::WARN, command: Some(message), value: None },
        ),
{
    reveal_strlit("CASP/WARN/");
    reveal_strlit("CASP");
    reveal_strlit("OK");
    reveal_strlit("WARN");
    reveal_strlit("ERROR");
    reveal_strlit("/");
    reveal_strlit("\n");
    let slash = seq!['/'];
    let frame = warn_frame(message);
    let rest = "WARN"@ + slash + (message + slash + "\n"@);
    assert("/"@ =~= slash);
    assert("CASP/WARN/"@ =~= "CASP"@ + slash + "WARN"@ + slash);
    assert(frame =~= "CASP"@ + slash + rest);
    lemma_behind_part("CASP"@, rest);
    lemma_not_behind(rest, "ERROR"@, 0);
    lemma_not_behind(rest, "OK"@, 0);
    lemma_split_simple("\n"@, '/');
    assert(frame =~= "CASP"@ + slash + "WARN"@ + slash + message + slash + "\n"@);
    lemma_split_frame("CASP"@, "WARN"@, message, "\n"@);
    let parts = seq!["CASP"@, "WARN"@, message, "\n"@];
    assert(split(frame, '/') =~= parts);
    assert(parts[1] != "OK"@) by {
        assert("WARN"@[0] != "OK"@[0]);
    }
}

/// The notice of a shutdown is read back as the warning that it is.
pub proof fn lemma_round_trip_shutdown_notice()
    ensures
        answer_of(warn_frame("SHUTDOWN"@)) == Ok::<Answer, Fault>(
            Answer { status: ResponseStatus::WARN, command: Some("SHUTDOWN"@), value: None },
        ),
{
    reveal_strlit("SHUTDOWN");
    lemma_split_simple("SHUTDOWN"@, '/');
    lemma_round_trip_warn("SHUTDOWN"@);
}

} // verus!
