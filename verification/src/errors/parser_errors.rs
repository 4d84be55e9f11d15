//! Errors of the request parser.

use crate::numbers::{decimal, push_decimal};
use vstd::prelude::*;
use vstd::string::*;

verus! {

/// Why a request line could not be parsed.
#[derive(Debug, PartialEq, Eq)]
pub enum ParserErrorType {
    /// A range did not hold exactly two keys; the number found.
    InvalidRange(usize),
    /// A key holds a character that keys may not hold, or nothing at all.
    UnexpectedCharacter,
    /// A pair did not hold exactly a key and a value; the number of parts found.
    InvalidKeyValuePair(usize),
    /// The line starts with no known command; the whole line.
    UnknownQueryOperation(String),
    /// The value is not of the store's type; the name of that type.
    WrongValueType(String),
    /// The password holds a space.
    WrongAuthentication,
    /// A text value is not wrapped in double quotes.
    StringQuotesNotFound,
    /// A command that takes no parameters was followed by more; the command.
    UnexpectedParameters(String),
    /// A text value holds a double quote without a backslash before it.
    UnescapedDoubleQuote,
}

/// An error of the request parser.
#[derive(Debug, PartialEq, Eq)]
pub struct ParserError {
    pub error_type: ParserErrorType,
}

/// A parser error over plain text and numbers.
pub enum ParserErrorKind {
    InvalidRange(nat),
    UnexpectedCharacter,
    InvalidKeyValuePair(nat),
    UnknownQueryOperation(Seq<char>),
    WrongValueType(Seq<char>),
    WrongAuthentication,
    StringQuotesNotFound,
    UnexpectedParameters(Seq<char>),
    UnescapedDoubleQuote,
}

impl ParserErrorKind {
    /// The text that reports this error to the client.
    pub open spec fn message(self) -> Seq<char> {
        match self {
            ParserErrorKind::InvalidRange(n) => "ParserError "@
                + "'invalidRange': Expected two keys got "@ + decimal(n) + "."@,
            ParserErrorKind::UnexpectedCharacter => "ParserError "@
                + "'unexpectedCharacter': Spaces, commata and slashes are not allowed in keys unless it is in quotes."@,
            ParserErrorKind::InvalidKeyValuePair(n) => "ParserError "@
                + "'invalidKeyValuePair': Expected two parameters (key and value), found "@
                + decimal(n) + "."@,
            ParserErrorKind::UnknownQueryOperation(line) => "ParserError "@
                + "'unknownQueryOperation': Query '"@ + line + "' not recognized."@,
            ParserErrorKind::WrongValueType(name) => "ParserError "@
                + "'wrongValueType': The value doesn't match the database type '"@ + name + "'."@,
            ParserErrorKind::WrongAuthentication => "ParserError "@
                + "'wrongAuthentication': Couldn't read password. Expected: 'AUTH <password>'."@,
            ParserErrorKind::StringQuotesNotFound => "ParserError "@
                + "'stringQuotesNotFound': Expected double quotes around strings."@,
            ParserErrorKind::UnexpectedParameters(command) => "ParserError "@
                + "'unexpectedParameters': The command '"@ + command
                + "' doesn't take any parameters."@,
            ParserErrorKind::UnescapedDoubleQuote => "ParserError "@
                + "'unescapedDoubleQuote': Double quotes must be escaped."@,
        }
    }
}

impl View for ParserErrorType {
    type V = ParserErrorKind;

    open spec fn view(&self) -> ParserErrorKind {
        match self {
            ParserErrorType::InvalidRange(n) => ParserErrorKind::InvalidRange(*n as nat),
            ParserErrorType::UnexpectedCharacter => ParserErrorKind::UnexpectedCharacter,
            ParserErrorType::InvalidKeyValuePair(n) => ParserErrorKind::InvalidKeyValuePair(
                *n as nat,
            ),
            ParserErrorType::UnknownQueryOperation(line) => ParserErrorKind::UnknownQueryOperation(
                line@,
            ),
            ParserErrorType::WrongValueType(name) => ParserErrorKind::WrongValueType(name@),
            ParserErrorType::WrongAuthentication => ParserErrorKind::WrongAuthentication,
            ParserErrorType::StringQuotesNotFound => ParserErrorKind::StringQuotesNotFound,
            ParserErrorType::UnexpectedParameters(command) => ParserErrorKind::UnexpectedParameters(
                command@,
            ),
            ParserErrorType::UnescapedDoubleQuote => ParserErrorKind::UnescapedDoubleQuote,
        }
    }
}

impl ParserError {
    /// Renders the error as it is reported to the client.
    pub fn to_string(&self) -> (s: String)
        ensures
            s@ == self.error_type@.message(),
    {
        let mut s = String::from_str("ParserError ");
        match &self.error_type {
            ParserErrorType::InvalidRange(n) => {
                s.append("'invalidRange': Expected two keys got ");
                push_decimal(&mut s, *n as u64);
                s.append(".");
            },
            ParserErrorType::UnexpectedCharacter => {
                s.append(
                    "'unexpectedCharacter': Spaces, commata and slashes are not allowed in keys unless it is in quotes.",
                );
            },
            ParserErrorType::InvalidKeyValuePair(n) => {
                s.append("'invalidKeyValuePair': Expected two parameters (key and value), found ");
                push_decimal(&mut s, *n as u64);
                s.append(".");
            },
            ParserErrorType::UnknownQueryOperation(line) => {
                s.append("'unknownQueryOperation': Query '");
                s.append(line.as_str());
                s.append("' not recognized.");
            },
            ParserErrorType::WrongValueType(name) => {
                s.append("'wrongValueType': The value doesn't match the database type '");
                s.append(name.as_str());
                s.append("'.");
            },
            ParserErrorType::WrongAuthentication => {
                s.append(
                    "'wrongAuthentication': Couldn't read password. Expected: 'AUTH <password>'.",
                );
            },
            ParserErrorType::StringQuotesNotFound => {
                s.append("'stringQuotesNotFound': Expected double quotes around strings.");
            },
            ParserErrorType::UnexpectedParameters(command) => {
                s.append("'unexpectedParameters': The command '");
                s.append(command.as_str());
                s.append("' doesn't take any parameters.");
            },
            ParserErrorType::UnescapedDoubleQuote => {
                s.append("'unescapedDoubleQuote': Double quotes must be escaped.");
            },
        }
        s
    }
}

} // verus!
