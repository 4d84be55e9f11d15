//! The values that the store holds, and the requests and results that travel
//! between the parser, the store and the response encoder.

use crate::numbers::{float_text, is_float_text};
use vstd::prelude::*;
use vstd::string::*;

verus! {

/// The one type of value that a store accepts, fixed when the server starts.
#[derive(Debug, Clone, Copy, PartialEq, Eq, Structural)]
pub enum DatabaseType {
    Str,
    Int,
    Float,
    Bool,
    Json,
}

impl DatabaseType {
    /// The name of the type on the wire.
    pub open spec fn name(self) -> Seq<char> {
        match self {
            DatabaseType::Str => "STR"@,
            DatabaseType::Int => "INT"@,
            DatabaseType::Float => "FLOAT"@,
            DatabaseType::Bool => "BOOL"@,
            DatabaseType::Json => "JSON"@,
        }
    }

    /// The name of the type on the wire.
    pub fn to_string(&self) -> (s: String)
        ensures
            s@ == self.name(),
    {
        match self {
            DatabaseType::Str => String::from_str("STR"),
            DatabaseType::Int => String::from_str("INT"),
            DatabaseType::Float => String::from_str("FLOAT"),
            DatabaseType::Bool => String::from_str("BOOL"),
            DatabaseType::Json => String::from_str("JSON"),
        }
    }
}

/// The text of a floating-point number: an optional sign, then `inf`,
/// `infinity` or `nan` in any letter case, or a decimal number with an
/// optional exponent. No other text can be held.
#[derive(Debug, PartialEq, Eq)]
pub struct FloatText {
    text: String,
}

impl View for FloatText {
    type V = Seq<char>;

    /// The text that is held.
    closed spec fn view(&self) -> Seq<char> {
        self.text@
    }
}

impl FloatText {
    /// What holds of every float text: it writes a floating-point number.
    #[verifier::type_invariant]
    pub closed spec fn wf(&self) -> bool {
        is_float_text(self.text@)
    }

    /// Holds `text` if it writes a floating-point number.
    pub fn new(text: &str) -> (number: Option<FloatText>)
        ensures
            match number {
                Some(found) => is_float_text(text@) && found@ == text@,
                None => !is_float_text(text@),
            },
    {
        if float_text(text) {
            Some(FloatText { text: String::from_str(text) })
        } else {
            None
        }
    }

    /// The text that is held, which writes a floating-point number.
    pub fn as_str(&self) -> (text: &str)
        ensures
            text@ == self@,
            is_float_text(self@),
    {
        proof {
            use_type_invariant(self);
        }
        self.text.as_str()
    }

    /// A second float text that holds the same as this one.
    pub fn duplicate(&self) -> (copy: FloatText)
        ensures
            copy@ == self@,
    {
        proof {
            use_type_invariant(self);
        }
        FloatText { text: self.text.clone() }
    }
}

/// A value of the store. A floating-point number is held as the text that
/// writes it, and JSON as the text it was sent as.
#[derive(Debug, PartialEq)]
pub enum ValueType {
    Str(String),
    Int(i32),
    Float(FloatText),
    Bool(bool),
    Json(String),
}

/// A value over plain text and numbers.
pub enum Value {
    Str(Seq<char>),
    Int(int),
    Float(Seq<char>),
    Bool(bool),
    Json(Seq<char>),
}

impl Value {
    /// Whether this is a value that the store can hold: the text of a
    /// floating-point number writes one.
    pub open spec fn well_formed(self) -> bool {
        match self {
            Value::Float(text) => is_float_text(text),
            _ => true,
        }
    }

    /// The type that this value is of.
    pub open spec fn tag(self) -> DatabaseType {
        match self {
            Value::Str(_) => DatabaseType::Str,
            Value::Int(_) => DatabaseType::Int,
            Value::Float(_) => DatabaseType::Float,
            Value::Bool(_) => DatabaseType::Bool,
            Value::Json(_) => DatabaseType::Json,
        }
    }
}

impl View for ValueType {
    type V = Value;

    open spec fn view(&self) -> Value {
        match self {
            ValueType::Str(text) => Value::Str(text@),
            ValueType::Int(number) => Value::Int(*number as int),
            ValueType::Float(number) => Value::Float(number@),
            ValueType::Bool(flag) => Value::Bool(*flag),
            ValueType::Json(text) => Value::Json(text@),
        }
    }
}

impl ValueType {
    /// The type that this value is of.
    pub fn tag(&self) -> (t: DatabaseType)
        ensures
            t == self@.tag(),
            self@.well_formed(),
    {
        match self {
            ValueType::Str(_) => DatabaseType::Str,
            ValueType::Int(_) => DatabaseType::Int,
            ValueType::Float(number) => {
                proof {
                    use_type_invariant(number);
                }
                DatabaseType::Float
            },
            ValueType::Bool(_) => DatabaseType::Bool,
            ValueType::Json(_) => DatabaseType::Json,
        }
    }

    /// A second value that holds the same as this one.
    pub fn duplicate(&self) -> (copy: ValueType)
        ensures
            copy@ == self@,
            self@.well_formed(),
    {
        let _ = self.tag();
        match self {
            ValueType::Str(text) => ValueType::Str(text.clone()),
            ValueType::Int(number) => ValueType::Int(*number),
            ValueType::Float(number) => ValueType::Float(number.duplicate()),
            ValueType::Bool(flag) => ValueType::Bool(*flag),
            ValueType::Json(text) => ValueType::Json(text.clone()),
        }
    }
}

/// A key with the value to store under it.
#[derive(Debug, PartialEq)]
pub struct KeyValuePair {
    pub key: String,
    pub value: ValueType,
}

/// A key and its value over plain text and numbers.
pub struct Pair {
    pub key: Seq<char>,
    pub value: Value,
}

impl View for KeyValuePair {
    type V = Pair;

    open spec fn view(&self) -> Pair {
        Pair { key: self.key@, value: self.value@ }
    }
}

/// The texts that a list of string slices holds.
pub open spec fn texts(parts: Seq<&str>) -> Seq<Seq<char>> {
    Seq::new(parts.len(), |i: int| parts[i]@)
}

/// The values that a list holds, over plain text and numbers.
pub open spec fn values(list: Seq<ValueType>) -> Seq<Value> {
    Seq::new(list.len(), |i: int| list[i]@)
}

/// The pairs that a list holds, over plain text and numbers.
pub open spec fn pairs(list: Seq<KeyValuePair>) -> Seq<Pair> {
    Seq::new(list.len(), |i: int| list[i]@)
}

/// One request of a client.
#[allow(non_camel_case_types)]
#[derive(Debug, PartialEq)]
pub enum QueryRequest<'a> {
    GET(String),
    SET(KeyValuePair),
    SET_MANY(Vec<KeyValuePair>),
    GET_RANGE { key_lower: String, key_upper: String },
    GET_MANY(Vec<&'a str>),
    DEL(String),
    DEL_RANGE { key_lower: String, key_upper: String },
    DEL_MANY(Vec<&'a str>),
    AUTH(String),
    CLEAR,
    LEN,
    PING,
    EXISTS(String),
    SHUTDOWN,
}

/// A request over plain text and numbers.
#[allow(non_camel_case_types)]
pub enum Request {
    GET(Seq<char>),
    SET(Pair),
    SET_MANY(Seq<Pair>),
    GET_RANGE { key_lower: Seq<char>, key_upper: Seq<char> },
    GET_MANY(Seq<Seq<char>>),
    DEL(Seq<char>),
    DEL_RANGE { key_lower: Seq<char>, key_upper: Seq<char> },
    DEL_MANY(Seq<Seq<char>>),
    AUTH(Seq<char>),
    CLEAR,
    LEN,
    PING,
    EXISTS(Seq<char>),
    SHUTDOWN,
}

impl<'a> View for QueryRequest<'a> {
    type V = Request;

    open spec fn view(&self) -> Request {
        match self {
            QueryRequest::GET(key) => Request::GET(key@),
            QueryRequest::SET(pair) => Request::SET(pair@),
            QueryRequest::SET_MANY(list) => Request::SET_MANY(pairs(list@)),
            QueryRequest::GET_RANGE { key_lower, key_upper } => Request::GET_RANGE {
                key_lower: key_lower@,
                key_upper: key_upper@,
            },
            QueryRequest::GET_MANY(keys) => Request::GET_MANY(texts(keys@)),
            QueryRequest::DEL(key) => Request::DEL(key@),
            QueryRequest::DEL_RANGE { key_lower, key_upper } => Request::DEL_RANGE {
                key_lower: key_lower@,
                key_upper: key_upper@,
            },
            QueryRequest::DEL_MANY(keys) => Request::DEL_MANY(texts(keys@)),
            QueryRequest::AUTH(password) => Request::AUTH(password@),
            QueryRequest::CLEAR => Request::CLEAR,
            QueryRequest::LEN => Request::LEN,
            QueryRequest::PING => Request::PING,
            QueryRequest::EXISTS(key) => Request::EXISTS(key@),
            QueryRequest::SHUTDOWN => Request::SHUTDOWN,
        }
    }
}

/// The result of a request that succeeded.
#[allow(non_camel_case_types)]
#[derive(Debug, PartialEq)]
pub enum QueryResponseType {
    GET_OK(ValueType),
    GET_RANGE_OK(Vec<ValueType>),
    GET_MANY_OK(Vec<ValueType>),
    DEL_OK,
    DEL_RANGE_OK,
    DEL_MANY_OK,
    SET_OK,
    SET_MANY_OK,
    AUTH_OK,
    CLEAR_OK,
    LEN_OK(usize),
    PING_OK,
    EXISTS_OK(bool),
    SHUTDOWN_OK,
}

/// A result over plain text and numbers.
#[allow(non_camel_case_types)]
pub enum Response {
    GET_OK(Value),
    GET_RANGE_OK(Seq<Value>),
    GET_MANY_OK(Seq<Value>),
    DEL_OK,
    DEL_RANGE_OK,
    DEL_MANY_OK,
    SET_OK,
    SET_MANY_OK,
    AUTH_OK,
    CLEAR_OK,
    LEN_OK(nat),
    PING_OK,
    EXISTS_OK(bool),
    SHUTDOWN_OK,
}

impl View for QueryResponseType {
    type V = Response;

    open spec fn view(&self) -> Response {
        match self {
            QueryResponseType::GET_OK(value) => Response::GET_OK(value@),
            QueryResponseType::GET_RANGE_OK(list) => Response::GET_RANGE_OK(values(list@)),
            QueryResponseType::GET_MANY_OK(list) => Response::GET_MANY_OK(values(list@)),
            QueryResponseType::DEL_OK => Response::DEL_OK,
            QueryResponseType::DEL_RANGE_OK => Response::DEL_RANGE_OK,
            QueryResponseType::DEL_MANY_OK => Response::DEL_MANY_OK,
            QueryResponseType::SET_OK => Response::SET_OK,
            QueryResponseType::SET_MANY_OK => Response::SET_MANY_OK,
            QueryResponseType::AUTH_OK => Response::AUTH_OK,
            QueryResponseType::CLEAR_OK => Response::CLEAR_OK,
            QueryResponseType::LEN_OK(n) => Response::LEN_OK(*n as nat),
            QueryResponseType::PING_OK => Response::PING_OK,
            QueryResponseType::EXISTS_OK(found) => Response::EXISTS_OK(*found),
            QueryResponseType::SHUTDOWN_OK => Response::SHUTDOWN_OK,
        }
    }
}

} // verus!
