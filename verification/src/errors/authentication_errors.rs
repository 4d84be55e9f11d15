//! Errors of the authentication gate.

use vstd::prelude::*;
use vstd::string::*;

verus! {

/// Why a request was turned away at the authentication gate.
#[derive(Debug, Clone, Copy, PartialEq, Eq, Structural)]
pub enum AuthenticationErrorType {
    /// A request other than `AUTH` came from a client that has not authenticated.
    NotAuthenticated,
    /// `AUTH` came with a password other than the server's.
    AuthenticationFailed,
}

/// An error of the authentication gate.
#[derive(Debug, Clone, Copy, PartialEq, Eq, Structural)]
pub struct AuthenticationError {
    pub error_type: AuthenticationErrorType,
}

impl AuthenticationErrorType {
    /// The text that reports this error to the client.
    pub open spec fn message(self) -> Seq<char> {
        match self {
            AuthenticationErrorType::NotAuthenticated => "AuthenticationError "@
                + "'notAuthenticated': Please authenticate before executing queries."@,
            AuthenticationErrorType::AuthenticationFailed => "AuthenticationError "@
                + "'authenticationFailed': Wrong password."@,
        }
    }
}

impl AuthenticationError {
    /// Renders the error as it is reported to the client.
    pub fn to_string(&self) -> (s: String)
        ensures
            s@ == self.error_type.message(),
    {
        let mut s = String::from_str("AuthenticationError ");
        match self.error_type {
            AuthenticationErrorType::NotAuthenticated => {
                s.append("'notAuthenticated': Please authenticate before executing queries.");
            },
            AuthenticationErrorType::AuthenticationFailed => {
                s.append("'authenticationFailed': Wrong password.");
            },
        }
        s
    }
}

} // verus!
