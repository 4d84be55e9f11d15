//! Errors of the frame around a request.

use crate::text::{escape_newlines, push_escaped};
use vstd::prelude::*;
use vstd::string::*;

verus! {

/// Why a line is no frame of the protocol.
#[derive(Debug, PartialEq, Eq)]
pub enum ProtocolErrorType {
    /// The line is empty or a lone line feed.
    EmptyRequest,
    /// The line does not start with the marker given.
    StartMarkerNotFound(String),
    /// The line does not end with the marker given, or holds nothing between the markers.
    EndMarkerNotFound(String),
}

/// An error of the frame around a request.
#[derive(Debug, PartialEq, Eq)]
pub struct ProtocolError {
    pub error_type: ProtocolErrorType,
}

/// A protocol error over plain text.
pub enum ProtocolErrorKind {
    EmptyRequest,
    StartMarkerNotFound(Seq<char>),
    EndMarkerNotFound(Seq<char>),
}

impl ProtocolErrorKind {
    /// The text that reports this error to the client. The end marker is
    /// shown with its line feed escaped, so that the report stays on one line.
    pub open spec fn message(self) -> Seq<char> {
        match self {
            ProtocolErrorKind::EmptyRequest => "ProtocolError "@
                + "'emptyRequest': Can't process empty request."@,
            ProtocolErrorKind::StartMarkerNotFound(marker) => "ProtocolError "@
                + "'startMarkerNotFound': Expected request to start with '"@ + marker + "'."@,
            ProtocolErrorKind::EndMarkerNotFound(marker) => "ProtocolError "@
                + "'endMarkerNotFound': Expected request to end with '"@ + escape_newlines(marker)
                + "'."@,
        }
    }
}

impl View for ProtocolErrorType {
    type V = ProtocolErrorKind;

    open spec fn view(&self) -> ProtocolErrorKind {
        match self {
            ProtocolErrorType::EmptyRequest => ProtocolErrorKind::EmptyRequest,
            ProtocolErrorType::StartMarkerNotFound(marker) => ProtocolErrorKind::StartMarkerNotFound(
                marker@,
            ),
            ProtocolErrorType::EndMarkerNotFound(marker) => ProtocolErrorKind::EndMarkerNotFound(
                marker@,
            ),
        }
    }
}

impl ProtocolError {
    /// Renders the error as it is reported to the client.
    pub fn to_string(&self) -> (s: String)
        ensures
            s@ == self.error_type@.message(),
    {
        let mut s = String::from_str("ProtocolError ");
        match &self.error_type {
            ProtocolErrorType::EmptyRequest => {
                s.append("'emptyRequest': Can't process empty request.");
            },
            ProtocolErrorType::StartMarkerNotFound(marker) => {
                s.append("'startMarkerNotFound': Expected request to start with '");
                s.append(marker.as_str());
                s.append("'.");
            },
            ProtocolErrorType::EndMarkerNotFound(marker) => {
                s.append("'endMarkerNotFound': Expected request to end with '");
                push_escaped(&mut s, marker.as_str());
                s.append("'.");
            },
        }
        s
    }
}

} // verus!
