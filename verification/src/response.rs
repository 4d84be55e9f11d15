//! The encoder of responses: results and errors become CASP frames.

use crate::envelope::{
    formed_response, formed_values, in_envelope, in_error_envelope, in_ok_envelope,
    lemma_error_frame, lemma_response_frame, lemma_warn_frame, plain_response,
};
use crate::numbers::{decimal, push_decimal, push_signed_decimal, signed_decimal};
use crate::text::single_line;
use crate::schemas::{values, DatabaseType, QueryResponseType, Response, Value, ValueType};
use vstd::prelude::*;
use vstd::string::*;

verus! {

/// A value as it is written on the wire: a string in double quotes, an
/// integer in decimal, a boolean as `true` or `false`, a floating-point
/// number and JSON as the text that is held.
pub open spec fn rendered(value: Value) -> Seq<char> {
    match value {
        Value::Str(text) => "\""@ + text + "\""@,
        Value::Int(number) => signed_decimal(number),
        Value::Float(text) => text,
        Value::Bool(flag) => if flag {
            "true"@
        } else {
            "false"@
        },
        Value::Json(text) => text,
    }
}

/// The values as they are written on the wire, separated by commas.
pub open spec fn joined(list: Seq<Value>) -> Seq<char>
    decreases list.len(),
{
    if list.len() == 0 {
        Seq::empty()
    } else if list.len() == 1 {
        rendered(list[0])
    } else {
        joined(list.drop_last()) + ","@ + rendered(list.last())
    }
}

/// The frame of a success: the name of the store's type where values are
/// sent, the command, and the content if there is any.
pub open spec fn ok_frame(
    identifier: Seq<char>,
    content: Option<Seq<char>>,
    kind: Option<Seq<char>>,
) -> Seq<char> {
    let head = match kind {
        Some(name) => "CASP/OK/"@ + name + "/"@,
        None => "CASP/OK/"@,
    };
    let body = head + identifier + "/"@;
    let full = match content {
        Some(text) => body + text + "/"@,
        None => body,
    };
    full + "\n"@
}

/// The frame that reports an error.
pub open spec fn error_frame(message: Seq<char>) -> Seq<char> {
    "CASP/ERROR/"@ + message + "/"@ + "\n"@
}

/// The frame that warns a client.
pub open spec fn warn_frame(message: Seq<char>) -> Seq<char> {
    "CASP/WARN/"@ + message + "/"@ + "\n"@
}

/// The command that a result answers.
pub open spec fn identifier(response: Response) -> Seq<char> {
    match response {
        Response::GET_OK(_) => "GET"@,
        Response::GET_RANGE_OK(_) => "GET RANGE"@,
        Response::GET_MANY_OK(_) => "GET MANY"@,
        Response::DEL_OK => "DEL"@,
        Response::DEL_RANGE_OK => "DEL RANGE"@,
        Response::DEL_MANY_OK => "DEL MANY"@,
        Response::SET_OK => "SET"@,
        Response::SET_MANY_OK => "SET MANY"@,
        Response::AUTH_OK => "AUTH"@,
        Response::CLEAR_OK => "CLEAR"@,
        Response::LEN_OK(_) => "LEN"@,
        Response::PING_OK => "PING"@,
        Response::EXISTS_OK(_) => "EXISTS"@,
        Response::SHUTDOWN_OK => "SHUTDOWN"@,
    }
}

/// The content that a result carries, if it carries any.
pub open spec fn content(response: Response) -> Option<Seq<char>> {
    match response {
        Response::GET_OK(value) => Some(rendered(value)),
        Response::GET_RANGE_OK(list) => Some(joined(list)),
        Response::GET_MANY_OK(list) => Some(joined(list)),
        Response::LEN_OK(n) => Some(decimal(n)),
        Response::PING_OK => Some("PONG"@),
        Response::EXISTS_OK(found) => Some(
            if found {
                "true"@
            } else {
                "false"@
            },
        ),
        _ => None,
    }
}

/// Whether a result carries values of the store; the frame then names the
/// type of the store.
pub open spec fn carries_values(response: Response) -> bool {
    response is GET_OK || response is GET_RANGE_OK || response is GET_MANY_OK
}

/// The frame of a result, for a store of the given type.
pub open spec fn response_frame(response: Response, database_type: DatabaseType) -> Seq<char> {
    ok_frame(
        identifier(response),
        content(response),
        if carries_values(response) {
            Some(database_type.name())
        } else {
            None
        },
    )
}

/// The encoder of responses.
pub struct QueryResponse {}

impl QueryResponse {
    /// Builds the frame of a success from its pieces.
    pub fn build_ok_response(
        query_identifier: String,
        content: Option<String>,
        database_type: Option<&DatabaseType>,
    ) -> (frame: String)
        ensures
            frame@ == ok_frame(
                query_identifier@,
                match content {
                    Some(text) => Some(text@),
                    None => None,
                },
                match database_type {
                    Some(found) => Some(found.name()),
                    None => None,
                },
            ),
    {
        let mut frame = String::from_str("CASP/OK/");
        match database_type {
            Some(found) => {
                let name = found.to_string();
                frame.append(name.as_str());
                frame.append("/");
            },
            None => {},
        }
        frame.append(query_identifier.as_str());
        frame.append("/");
        match content {
            Some(text) => {
                frame.append(text.as_str());
                frame.append("/");
            },
            None => {},
        }
        frame.append("\n");
        frame
    }

    /// Writes a value as it goes on the wire.
    pub fn handle_value_types(value: &ValueType) -> (text: String)
        ensures
            text@ == rendered(value@),
            value@.well_formed(),
    {
        match value {
            ValueType::Str(value) => {
                let mut text = String::from_str("\"");
                text.append(value.as_str());
                text.append("\"");
                text
            },
            ValueType::Int(value) => {
                let mut text = String::new();
                push_signed_decimal(&mut text, *value);
                assert(Seq::<char>::empty() + signed_decimal(*value as int) =~= signed_decimal(
                    *value as int,
                ));
                text
            },
            ValueType::Float(value) => String::from_str(value.as_str()),
            ValueType::Bool(value) => {
                if *value {
                    String::from_str("true")
                } else {
                    String::from_str("false")
                }
            },
            ValueType::Json(value) => value.clone(),
        }
    }

    /// Writes the values as they go on the wire, separated by commas.
    pub fn join_values(list: &Vec<ValueType>) -> (content: String)
        ensures
            content@ == joined(values(list@)),
            formed_values(values(list@)),
    {
        let mut content = String::new();
        let ghost all = values(list@);
        let mut i: usize = 0;
        assert(all.take(0) =~= Seq::<Value>::empty());
        while i < list.len()
            invariant
                i <= list.len(),
                all == values(list@),
                content@ == joined(all.take(i as int)),
                forall|j: int| 0 <= j < i ==> (#[trigger] all[j]).well_formed(),
            decreases list.len() - i,
        {
            let ghost next = all.take(i + 1);
            assert(next.drop_last() =~= all.take(i as int));
            assert(next.last() == list@[i as int]@);
            let text = Self::handle_value_types(&list[i]);
            if i > 0 {
                content.append(",");
            } else {
                assert(Seq::<char>::empty() + text@ =~= text@);
            }
            content.append(text.as_str());
            i += 1;
        }
        assert(all.take(list.len() as int) =~= all);
        content
    }

    /// Encodes the result of a request as a frame. The frame lies in the
    /// envelope of a success if no string and no JSON in the result holds a
    /// line feed.
    pub fn ok(response: QueryResponseType, database_type: &DatabaseType) -> (frame: String)
        ensures
            frame@ == response_frame(response@, *database_type),
            formed_response(response@),
            plain_response(response@) ==> in_ok_envelope(frame@),
    {
        let ghost answer = response@;
        let frame = Self::encode(response, database_type);
        proof {
            if plain_response(answer) {
                lemma_response_frame(answer, *database_type);
            }
        }
        frame
    }

    /// Builds the frame of a result.
    fn encode(response: QueryResponseType, database_type: &DatabaseType) -> (frame: String)
        ensures
            frame@ == response_frame(response@, *database_type),
            formed_response(response@),
    {
        match response {
            QueryResponseType::GET_OK(value) => {
                Self::build_ok_response(
                    String::from_str("GET"),
                    Some(Self::handle_value_types(&value)),
                    Some(database_type),
                )
            },
            QueryResponseType::GET_RANGE_OK(list) => {
                Self::build_ok_response(
                    String::from_str("GET RANGE"),
                    Some(Self::join_values(&list)),
                    Some(database_type),
                )
            },
            QueryResponseType::GET_MANY_OK(list) => {
                Self::build_ok_response(
                    String::from_str("GET MANY"),
                    Some(Self::join_values(&list)),
                    Some(database_type),
                )
            },
            QueryResponseType::DEL_OK => {
                Self::build_ok_response(String::from_str("DEL"), None, None)
            },
            QueryResponseType::DEL_RANGE_OK => {
                Self::build_ok_response(String::from_str("DEL RANGE"), None, None)
            },
            QueryResponseType::DEL_MANY_OK => {
                Self::build_ok_response(String::from_str("DEL MANY"), None, None)
            },
            QueryResponseType::SET_OK => {
                Self::build_ok_response(String::from_str("SET"), None, None)
            },
            QueryResponseType::SET_MANY_OK => {
                Self::build_ok_response(String::from_str("SET MANY"), None, None)
            },
            QueryResponseType::AUTH_OK => {
                Self::build_ok_response(String::from_str("AUTH"), None, None)
            },
            QueryResponseType::CLEAR_OK => {
                Self::build_ok_response(String::from_str("CLEAR"), None, None)
            },
            QueryResponseType::LEN_OK(length) => {
                let mut text = String::new();
                push_decimal(&mut text, length as u64);
                assert(Seq::<char>::empty() + decimal(length as nat) =~= decimal(length as nat));
                Self::build_ok_response(String::from_str("LEN"), Some(text), None)
            },
            QueryResponseType::PING_OK => {
                Self::build_ok_response(
                    String::from_str("PING"),
                    Some(String::from_str("PONG")),
                    None,
                )
            },
            QueryResponseType::EXISTS_OK(exists) => {
                let text = if exists {
                    String::from_str("true")
                } else {
                    String::from_str("false")
                };
                Self::build_ok_response(String::from_str("EXISTS"), Some(text), None)
            },
            QueryResponseType::SHUTDOWN_OK => {
                Self::build_ok_response(String::from_str("SHUTDOWN"), None, None)
            },
        }
    }

    /// Encodes the report of an error as a frame. The frame lies in the
    /// envelope of an error if the report holds no line feed.
    pub fn error(error: &str) -> (frame: String)
        ensures
            frame@ == error_frame(error@),
            single_line(error@) ==> in_error_envelope(frame@),
    {
        proof {
            if single_line(error@) {
                lemma_error_frame(error@);
            }
        }
        let mut frame = String::from_str("CASP/ERROR/");
        frame.append(error);
        frame.append("/");
        frame.append("\n");
        frame
    }

    /// Encodes a warning as a frame. The frame lies in the envelope of the
    /// protocol if the warning holds no line feed.
    pub fn warn(message: &str) -> (frame: String)
        ensures
            frame@ == warn_frame(message@),
            single_line(message@) ==> in_envelope(frame@),
    {
        proof {
            if single_line(message@) {
                lemma_warn_frame(message@);
            }
        }
        let mut frame = String::from_str("CASP/WARN/");
        frame.append(message);
        frame.append("/");
        frame.append("\n");
        frame
    }
}

} // verus!
