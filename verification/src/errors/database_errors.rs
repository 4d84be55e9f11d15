//! Errors of the store.

use vstd::prelude::*;
use vstd::string::*;

verus! {

/// Why the store refused an operation.
#[derive(Debug, PartialEq, Eq)]
pub enum DatabaseErrorType {
    /// The key is not in the store.
    KeyNotFound(String),
    /// The lower bound of a range comes after its upper bound.
    InvalidRangeOrder,
    /// The value is not of the type that the store holds.
    WrongValueType,
}

/// An error of the store.
#[derive(Debug, PartialEq, Eq)]
pub struct DatabaseError {
    pub error_type: DatabaseErrorType,
}

/// A store error over plain text.
pub enum DatabaseErrorKind {
    KeyNotFound(Seq<char>),
    InvalidRangeOrder,
    WrongValueType,
}

impl DatabaseErrorKind {
    /// The text that reports this error to the client.
    pub open spec fn message(self) -> Seq<char> {
        match self {
            DatabaseErrorKind::KeyNotFound(key) => "DatabaseError "@
                + "'keyNotFound': The key '"@ + key + "' doesn't exist."@,
            DatabaseErrorKind::InvalidRangeOrder => "DatabaseError "@
                + "'invalidRangeOrder': The lower key is bigger than the upper key."@,
            DatabaseErrorKind::WrongValueType => "DatabaseError "@
                + "'wrongValueType': The value doesn't match the database type."@,
        }
    }
}

impl View for DatabaseErrorType {
    type V = DatabaseErrorKind;

    open spec fn view(&self) -> DatabaseErrorKind {
        match self {
            DatabaseErrorType::KeyNotFound(key) => DatabaseErrorKind::KeyNotFound(key@),
            DatabaseErrorType::InvalidRangeOrder => DatabaseErrorKind::InvalidRangeOrder,
            DatabaseErrorType::WrongValueType => DatabaseErrorKind::WrongValueType,
        }
    }
}

impl DatabaseError {
    /// Renders the error as it is reported to the client.
    pub fn to_string(&self) -> (s: String)
        ensures
            s@ == self.error_type@.message(),
    {
        let mut s = String::from_str("DatabaseError ");
        match &self.error_type {
            DatabaseErrorType::KeyNotFound(key) => {
                s.append("'keyNotFound': The key '");
                s.append(key.as_str());
                s.append("' doesn't exist.");
            },
            DatabaseErrorType::InvalidRangeOrder => {
                s.append("'invalidRangeOrder': The lower key is bigger than the upper key.");
            },
            DatabaseErrorType::WrongValueType => {
                s.append("'wrongValueType': The value doesn't match the database type.");
            },
        }
        s
    }
}

} // verus!
