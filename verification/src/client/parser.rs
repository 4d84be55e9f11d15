//! Reading a response frame on the client's side: what the server encodes is
//! read back as its status, its command and its content.

use crate::parser::{split, split_at_delimiter};
use crate::schemas::texts;
use crate::text::{chars_of, has_prefix, same_text};
use vstd::prelude::*;
use vstd::string::*;

verus! {

/// The status that a response frame carries.
#[derive(Debug, Clone, Copy, PartialEq, Eq, Structural)]
pub enum ResponseStatus {
    OK,
    WARN,
    ERROR,
}

/// What a response frame says.
#[derive(Debug, PartialEq, Eq)]
pub struct ParsedResponse {
    pub status: ResponseStatus,
    /// The command that is answered; none for an error.
    pub command: Option<String>,
    /// The content of the answer, or the message of an error.
    pub value: Option<String>,
}

/// What a response frame says, over plain text.
pub struct Answer {
    pub status: ResponseStatus,
    pub command: Option<Seq<char>>,
    pub value: Option<Seq<char>>,
}

impl View for ParsedResponse {
    type V = Answer;

    open spec fn view(&self) -> Answer {
        Answer {
            status: self.status,
            command: match self.command {
                Some(text) => Some(text@),
                None => None,
            },
            value: match self.value {
                Some(text) => Some(text@),
                None => None,
            },
        }
    }
}

/// Why a text is no response frame.
pub enum Fault {
    /// Nothing was received.
    Empty,
    /// The first part is not `CASP`.
    Prefix,
    /// The last part is not a line feed.
    Suffix,
    /// The second part is none of the known statuses.
    Status,
    /// A `GET` answer does not have six parts.
    GetParts,
    /// An `EXISTS`, `PING` or `LEN` answer does not have five parts.
    MessageParts,
    /// Another success does not have four parts.
    OkParts,
    /// A warning does not have four parts.
    WarnParts,
    /// An error does not have four parts.
    ErrorParts,
}

impl Fault {
    /// The text that reports the fault to the user.
    pub open spec fn message(self) -> Seq<char> {
        match self {
            Fault::Empty => "Failed to parse response: Received empty response."@,
            Fault::Prefix => "Failed to parse response: Prefix 'CASP' not found."@,
            Fault::Suffix => "Failed to parse response: Suffix '\\n' not found."@,
            Fault::Status => "Failed to parse response: No status identifier found (expected one of: OK, ERROR)."@,
            Fault::GetParts => "Failed to parse response: Expected GET OK responses to consist of six parts (CASP + OK + <command> + <type> + <value> + \\n)."@,
            Fault::MessageParts => "Failed to parse response: Expected EXISTS, PING, LEN OK responses to consist of five parts (CASP + OK + <command> + <message> + \\n)."@,
            Fault::OkParts => "Failed to parse response: Expected OK responses to consist of four parts (CASP + OK + <command> + \\n)."@,
            Fault::WarnParts => "Failed to parse response: Expected WARN responses to consist of four parts (CASP + WARN + <command> + \\n)."@,
            Fault::ErrorParts => "Failed to parse response: Expected ERROR responses to consist of four parts (CASP + ERROR + message + \\n)."@,
        }
    }
}

/// Whether `text` is the name of a type of store.
pub open spec fn is_type_name(text: Seq<char>) -> bool {
    text == "STR"@ || text == "INT"@ || text == "FLOAT"@ || text == "BOOL"@ || text == "JSON"@
}

/// What is left of `text` behind `word` and the slash that follows it, if
/// `text` starts with the two.
pub open spec fn behind_part(text: Seq<char>, word: Seq<char>) -> Option<Seq<char>> {
    if word.is_prefix_of(text) && text.len() > word.len() && text[word.len() as int] == '/' {
        Some(text.skip(word.len() as int + 1))
    } else {
        None
    }
}

/// What is left of `text` behind the name of a type of store and its slash.
pub open spec fn behind_type(text: Seq<char>) -> Option<Seq<char>> {
    if behind_part(text, "STR"@) is Some {
        behind_part(text, "STR"@)
    } else if behind_part(text, "INT"@) is Some {
        behind_part(text, "INT"@)
    } else if behind_part(text, "FLOAT"@) is Some {
        behind_part(text, "FLOAT"@)
    } else if behind_part(text, "BOOL"@) is Some {
        behind_part(text, "BOOL"@)
    } else {
        behind_part(text, "JSON"@)
    }
}

/// The command of a result with values that `text` starts with, and what is
/// left behind it and its slash.
pub open spec fn value_command(text: Seq<char>) -> Option<(Seq<char>, Seq<char>)> {
    if behind_part(text, "GET"@) is Some {
        Some(("GET"@, behind_part(text, "GET"@)->0))
    } else if behind_part(text, "GET RANGE"@) is Some {
        Some(("GET RANGE"@, behind_part(text, "GET RANGE"@)->0))
    } else if behind_part(text, "GET MANY"@) is Some {
        Some(("GET MANY"@, behind_part(text, "GET MANY"@)->0))
    } else {
        None
    }
}

/// What stands before the slash and the line feed that close a frame, if
/// `body` ends with the two.
pub open spec fn closed_content(body: Seq<char>) -> Option<Seq<char>> {
    if body.len() >= 2 && body[body.len() - 2] == '/' && body[body.len() - 1] == '\n' {
        Some(body.take(body.len() - 2))
    } else {
        None
    }
}

/// The message of an error frame: all that stands between `CASP/ERROR/` and
/// the slash and line feed at the end, slashes and double quotes included.
pub open spec fn error_message(response: Seq<char>) -> Option<Seq<char>> {
    match behind_part(response, "CASP"@) {
        Some(rest) => match behind_part(rest, "ERROR"@) {
            Some(body) => closed_content(body),
            None => None,
        },
        None => None,
    }
}

/// The command and the values of a frame that names the type of the store
/// before the command: `CASP/OK/`, the name of a type, `GET`, `GET RANGE` or
/// `GET MANY`, and then all that stands before the slash and line feed at the
/// end, slashes and double quotes included.
pub open spec fn typed_values(response: Seq<char>) -> Option<(Seq<char>, Seq<char>)> {
    match behind_part(response, "CASP"@) {
        Some(rest) => match behind_part(rest, "OK"@) {
            Some(rest) => match behind_type(rest) {
                Some(rest) => match value_command(rest) {
                    Some(found) => match closed_content(found.1) {
                        Some(content) => Some((found.0, content)),
                        None => None,
                    },
                    None => None,
                },
                None => None,
            },
            None => None,
        },
        None => None,
    }
}

/// What the parts of a frame say. The parts are those between the slashes
/// that stand outside double quotes.
pub open spec fn answer_of_parts(parts: Seq<Seq<char>>) -> Result<Answer, Fault> {
    if parts.len() == 1 && parts[0].len() == 0 {
        Err(Fault::Empty)
    } else if parts.len() == 0 || parts[0] != "CASP"@ {
        Err(Fault::Prefix)
    } else if parts.last() != "\n"@ {
        Err(Fault::Suffix)
    } else if parts.len() < 3 {
        Err(Fault::Status)
    } else if parts[1] == "OK"@ {
        if "GET"@.is_prefix_of(parts[2]) {
            if parts.len() != 6 {
                Err(Fault::GetParts)
            } else {
                Ok(
                    Answer {
                        status: ResponseStatus::OK,
                        command: Some(parts[2]),
                        value: Some(parts[4]),
                    },
                )
            }
        } else if parts.len() == 6 && is_type_name(parts[2]) && "GET"@.is_prefix_of(parts[3]) {
            Ok(
                Answer {
                    status: ResponseStatus::OK,
                    command: Some(parts[3]),
                    value: Some(parts[4]),
                },
            )
        } else if "EXISTS"@.is_prefix_of(parts[2]) || "PING"@.is_prefix_of(parts[2])
            || "LEN"@.is_prefix_of(parts[2]) {
            if parts.len() != 5 {
                Err(Fault::MessageParts)
            } else {
                Ok(
                    Answer {
                        status: ResponseStatus::OK,
                        command: Some(parts[2]),
                        value: Some(parts[3]),
                    },
                )
            }
        } else {
            if parts.len() != 4 {
                Err(Fault::OkParts)
            } else {
                Ok(Answer { status: ResponseStatus::OK, command: Some(parts[2]), value: None })
            }
        }
    } else if parts[1] == "WARN"@ {
        if parts.len() != 4 {
            Err(Fault::WarnParts)
        } else {
            Ok(Answer { status: ResponseStatus::WARN, command: Some(parts[2]), value: None })
        }
    } else if parts[1] == "ERROR"@ {
        if parts.len() != 4 {
            Err(Fault::ErrorParts)
        } else {
            Ok(Answer { status: ResponseStatus::ERROR, command: None, value: Some(parts[2]) })
        }
    } else {
        Err(Fault::Status)
    }
}

/// What a response frame says. An error frame and a frame with values of the
/// store are read as a whole; every other frame is read part by part.
pub open spec fn answer_of(response: Seq<char>) -> Result<Answer, Fault> {
    match error_message(response) {
        Some(message) => Ok(
            Answer { status: ResponseStatus::ERROR, command: None, value: Some(message) },
        ),
        None => match typed_values(response) {
            Some(found) => Ok(
                Answer {
                    status: ResponseStatus::OK,
                    command: Some(found.0),
                    value: Some(found.1),
                },
            ),
            None => answer_of_parts(split(response, '/')),
        },
    }
}

/// What is left of `text` behind `word` and the slash that follows it.
fn strip_part<'a>(text: &'a str, word: &str) -> (rest: Option<&'a str>)
    ensures
        match rest {
            Some(found) => behind_part(text@, word@) == Some(found@),
            None => behind_part(text@, word@) is None,
        },
{
    let v = chars_of(text);
    let n = word.unicode_len();
    if has_prefix(&v, word) && v.len() > n && v[n] == '/' {
        Some(text.substring_char(n + 1, v.len()))
    } else {
        None
    }
}

/// What is left of `text` behind the name of a type of store and its slash.
fn strip_type<'a>(text: &'a str) -> (rest: Option<&'a str>)
    ensures
        match rest {
            Some(found) => behind_type(text@) == Some(found@),
            None => behind_type(text@) is None,
        },
{
    if let Some(rest) = strip_part(text, "STR") {
        Some(rest)
    } else if let Some(rest) = strip_part(text, "INT") {
        Some(rest)
    } else if let Some(rest) = strip_part(text, "FLOAT") {
        Some(rest)
    } else if let Some(rest) = strip_part(text, "BOOL") {
        Some(rest)
    } else {
        strip_part(text, "JSON")
    }
}

/// The command of a result with values that `text` starts with, and what is
/// left behind it and its slash.
fn strip_value_command<'a>(text: &'a str) -> (found: Option<(&'static str, &'a str)>)
    ensures
        match found {
            Some(pair) => value_command(text@) == Some((pair.0@, pair.1@)),
            None => value_command(text@) is None,
        },
{
    if let Some(rest) = strip_part(text, "GET") {
        Some(("GET", rest))
    } else if let Some(rest) = strip_part(text, "GET RANGE") {
        Some(("GET RANGE", rest))
    } else if let Some(rest) = strip_part(text, "GET MANY") {
        Some(("GET MANY", rest))
    } else {
        None
    }
}

/// What stands before the slash and the line feed that close a frame.
fn strip_close<'a>(body: &'a str) -> (content: Option<&'a str>)
    ensures
        match content {
            Some(found) => closed_content(body@) == Some(found@),
            None => closed_content(body@) is None,
        },
{
    let v = chars_of(body);
    let n = v.len();
    if n >= 2 && v[n - 2] == '/' && v[n - 1] == '\n' {
        Some(body.substring_char(0, n - 2))
    } else {
        None
    }
}

/// The message of an error frame, if `response` is one.
fn read_error<'a>(response: &'a str) -> (message: Option<&'a str>)
    ensures
        match message {
            Some(found) => error_message(response@) == Some(found@),
            None => error_message(response@) is None,
        },
{
    match strip_part(response, "CASP") {
        Some(rest) => match strip_part(rest, "ERROR") {
            Some(body) => strip_close(body),
            None => None,
        },
        None => None,
    }
}

/// The command and the values of a frame that names the type of the store
/// before the command, if `response` is one.
fn read_typed_values<'a>(response: &'a str) -> (found: Option<(&'static str, &'a str)>)
    ensures
        match found {
            Some(pair) => typed_values(response@) == Some((pair.0@, pair.1@)),
            None => typed_values(response@) is None,
        },
{
    let rest = match strip_part(response, "CASP") {
        Some(rest) => rest,
        None => return None,
    };
    let rest = match strip_part(rest, "OK") {
        Some(rest) => rest,
        None => return None,
    };
    let rest = match strip_type(rest) {
        Some(rest) => rest,
        None => return None,
    };
    let (command, body) = match strip_value_command(rest) {
        Some(pair) => pair,
        None => return None,
    };
    match strip_close(body) {
        Some(content) => Some((command, content)),
        None => None,
    }
}

/// Whether `text` is the name of a type of store.
fn names_type(text: &str) -> (b: bool)
    ensures
        b == is_type_name(text@),
{
    same_text(text, "STR") || same_text(text, "INT") || same_text(text, "FLOAT") || same_text(
        text,
        "BOOL",
    ) || same_text(text, "JSON")
}

fn fault(text: &str) -> (result: Result<ParsedResponse, String>)
    ensures
        result matches Err(error) && error@ == text@,
{
    Err(String::from_str(text))
}

fn starts_with(text: &str, prefix: &str) -> (b: bool)
    ensures
        b == prefix@.is_prefix_of(text@),
{
    let v = chars_of(text);
    has_prefix(&v, prefix)
}

/// Reads a response frame: its status, the command it answers and its
/// content. The message of an error, and the values behind the name of a
/// type and `GET`, `GET RANGE` or `GET MANY`, are all that stands before the
/// slash and line feed at the end; every other frame is split at the slashes
/// outside double quotes.
pub fn parse_response(response: &str) -> (result: Result<ParsedResponse, String>)
    ensures
        match answer_of(response@) {
            Ok(answer) => result matches Ok(found) && found@ == answer,
            Err(kind) => result matches Err(error) && error@ == kind.message(),
        },
{
    if let Some(message) = read_error(response) {
        return Ok(
            ParsedResponse {
                status: ResponseStatus::ERROR,
                command: None,
                value: Some(String::from_str(message)),
            },
        );
    }
    if let Some(found) = read_typed_values(response) {
        return Ok(
            ParsedResponse {
                status: ResponseStatus::OK,
                command: Some(String::from_str(found.0)),
                value: Some(String::from_str(found.1)),
            },
        );
    }
    let response_parts = split_at_delimiter(response, '/');
    let n = response_parts.len();
    let ghost parts = texts(response_parts@);
    assert(forall|i: int| 0 <= i < n ==> parts[i] == (#[trigger] response_parts@[i])@);
    assert(n >= 1);
    if n == 1 && response_parts[0].unicode_len() == 0 {
        return fault("Failed to parse response: Received empty response.");
    }
    if !same_text(response_parts[0], "CASP") {
        return fault("Failed to parse response: Prefix 'CASP' not found.");
    }
    if !same_text(response_parts[n - 1], "\n") {
        return fault("Failed to parse response: Suffix '\\n' not found.");
    }
    if n < 3 {
        return fault(
            "Failed to parse response: No status identifier found (expected one of: OK, ERROR).",
        );
    }
    if same_text(response_parts[1], "OK") {
        if starts_with(response_parts[2], "GET") {
            if n != 6 {
                return fault(
                    "Failed to parse response: Expected GET OK responses to consist of six parts (CASP + OK + <command> + <type> + <value> + \\n).",
                );
            }
            Ok(
                ParsedResponse {
                    status: ResponseStatus::OK,
                    command: Some(String::from_str(response_parts[2])),
                    value: Some(String::from_str(response_parts[4])),
                },
            )
        } else if n == 6 && names_type(response_parts[2]) && starts_with(response_parts[3], "GET") {
            Ok(
                ParsedResponse {
                    status: ResponseStatus::OK,
                    command: Some(String::from_str(response_parts[3])),
                    value: Some(String::from_str(response_parts[4])),
                },
            )
        } else if starts_with(response_parts[2], "EXISTS") || starts_with(
            response_parts[2],
            "PING",
        ) || starts_with(response_parts[2], "LEN") {
            if n != 5 {
                return fault(
                    "Failed to parse response: Expected EXISTS, PING, LEN OK responses to consist of five parts (CASP + OK + <command> + <message> + \\n).",
                );
            }
            Ok(
                ParsedResponse {
                    status: ResponseStatus::OK,
                    command: Some(String::from_str(response_parts[2])),
                    value: Some(String::from_str(response_parts[3])),
                },
            )
        } else {
            if n != 4 {
                return fault(
                    "Failed to parse response: Expected OK responses to consist of four parts (CASP + OK + <command> + \\n).",
                );
            }
            Ok(
                ParsedResponse {
                    status: ResponseStatus::OK,
                    command: Some(String::from_str(response_parts[2])),
                    value: None,
                },
            )
        }
    } else if same_text(response_parts[1], "WARN") {
        if n != 4 {
            return fault(
                "Failed to parse response: Expected WARN responses to consist of four parts (CASP + WARN + <command> + \\n).",
            );
        }
        Ok(
            ParsedResponse {
                status: ResponseStatus::WARN,
                command: Some(String::from_str(response_parts[2])),
                value: None,
            },
        )
    } else if same_text(response_parts[1], "ERROR") {
        if n != 4 {
            return fault(
                "Failed to parse response: Expected ERROR responses to consist of four parts (CASP + ERROR + message + \\n).",
            );
        }
        Ok(
            ParsedResponse {
                status: ResponseStatus::ERROR,
                command: None,
                value: Some(String::from_str(response_parts[2])),
            },
        )
    } else {
        fault(
            "Failed to parse response: No status identifier found (expected one of: OK, ERROR).",
        )
    }
}

} // verus!
