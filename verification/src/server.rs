//! One connection, step by step: the frame around a request is checked, the
//! request is parsed and executed, and the answer is encoded. The caller
//! owns the socket: it hands in what happened and does what the step says.

use crate::envelope::{
    in_envelope, lemma_line_keeps_store_plain, lemma_reaction_in_envelope,
    lemma_reply_in_envelope, lemma_shutdown_notice_in_envelope, lemma_store_stays_plain, one_line,
    plain_map, plain_request,
};
use crate::errors::protocol_errors::{ProtocolError, ProtocolErrorKind, ProtocolErrorType};
use crate::parser::{parse, request_of};
use crate::response::{error_frame, response_frame, warn_frame, QueryResponse};
use crate::schemas::{DatabaseType, QueryRequest, QueryResponseType, Response};
use crate::state::{reply_to, state_after, State};
use crate::text::{chars_of, has_prefix, trim_whitespace, trim_window};
use vstd::prelude::*;
use vstd::string::*;

verus! {

/// What the frame around a request starts with.
pub const REQUEST_START_MARKER: &'static str = "CASP/";

/// What the frame around a request ends with.
pub const REQUEST_END_MARKER: &'static str = "/\n";

/// Why a line is no frame, if it is none: it is empty, it lacks the start
/// marker, it lacks the end marker, or nothing stands between the two.
pub open spec fn frame_fault(line: Seq<char>) -> Option<ProtocolErrorKind> {
    if line.len() == 0 || line == "\n"@ {
        Some(ProtocolErrorKind::EmptyRequest)
    } else if !REQUEST_START_MARKER@.is_prefix_of(line) {
        Some(ProtocolErrorKind::StartMarkerNotFound(REQUEST_START_MARKER@))
    } else if !REQUEST_END_MARKER@.is_suffix_of(line) || line.len() <= REQUEST_START_MARKER@.len()
        + REQUEST_END_MARKER@.len() {
        Some(ProtocolErrorKind::EndMarkerNotFound(REQUEST_END_MARKER@))
    } else {
        None
    }
}

/// The request inside a frame: what stands between the markers, trimmed of
/// white space.
pub open spec fn body_of(line: Seq<char>) -> Seq<char> {
    trim_whitespace(
        line.subrange(
            REQUEST_START_MARKER@.len() as int,
            line.len() - REQUEST_END_MARKER@.len(),
        ),
    )
}

/// What happened on a connection.
pub enum Event<'a> {
    /// A line was read, with the line feed that ends it.
    Line(&'a str),
    /// The client closed the connection.
    Closed,
    /// The server is shutting down.
    Shutdown,
}

/// What the caller does after a step.
#[derive(Debug, PartialEq, Eq)]
pub enum Action {
    /// Write the frame and read on.
    Reply(String),
    /// Write the frame and close the connection.
    ReplyAndClose(String),
    /// Close the connection.
    Close,
    /// Tell all other connections that the server shuts down, write the
    /// frame and stop the server.
    ReplyAndShutdown(String),
}

/// An action over plain text.
pub enum Step {
    Reply(Seq<char>),
    ReplyAndClose(Seq<char>),
    Close,
    ReplyAndShutdown(Seq<char>),
}

impl View for Action {
    type V = Step;

    open spec fn view(&self) -> Step {
        match self {
            Action::Reply(frame) => Step::Reply(frame@),
            Action::ReplyAndClose(frame) => Step::ReplyAndClose(frame@),
            Action::Close => Step::Close,
            Action::ReplyAndShutdown(frame) => Step::ReplyAndShutdown(frame@),
        }
    }
}

impl Step {
    /// The frame that the step writes, if it writes one.
    pub open spec fn frame(self) -> Option<Seq<char>> {
        match self {
            Step::Reply(frame) => Some(frame),
            Step::ReplyAndClose(frame) => Some(frame),
            Step::Close => None,
            Step::ReplyAndShutdown(frame) => Some(frame),
        }
    }
}

/// Whether the step writes a frame that lies in the envelope of the protocol.
pub open spec fn framed(step: Step) -> bool {
    step.frame() matches Some(frame) && in_envelope(frame)
}

/// The step that answers a request with the given result: a successful
/// `SHUTDOWN` stops the server, everything else is answered and read on.
pub open spec fn step_for(reply: Result<Response, Seq<char>>, database_type: DatabaseType) -> Step {
    match reply {
        Ok(response) => if response is SHUTDOWN_OK {
            Step::ReplyAndShutdown(response_frame(response, database_type))
        } else {
            Step::Reply(response_frame(response, database_type))
        },
        Err(message) => Step::Reply(error_frame(message)),
    }
}

/// The step that answers a line: a line that is no frame is answered with
/// the error and closes the connection; a frame is parsed and answered.
pub open spec fn reaction(before: State, address: Seq<char>, line: Seq<char>) -> Step {
    match frame_fault(line) {
        Some(kind) => Step::ReplyAndClose(error_frame(kind.message())),
        None => match request_of(body_of(line), before.kind()) {
            Err(kind) => Step::Reply(error_frame(kind.message())),
            Ok(request) => step_for(reply_to(before, address, request), before.kind()),
        },
    }
}

/// Whether `line` is a frame of the protocol.
pub fn check_protocol(request: &str) -> (result: Result<(), String>)
    ensures
        match frame_fault(request@) {
            None => result is Ok,
            Some(kind) => result matches Err(error) && error@ == kind.message(),
        },
{
    let v = chars_of(request);
    let n = v.len();
    let start = chars_of(REQUEST_START_MARKER);
    let end = chars_of(REQUEST_END_MARKER);
    proof {
        reveal_strlit("\n");
        reveal_strlit("/\n");
        reveal_strlit("CASP/");
    }
    if n == 0 || (n == 1 && v[0] == '\n') {
        assert(n == 1 && v@[0] == '\n' ==> v@ =~= "\n"@);
        return protocol_error(ProtocolErrorType::EmptyRequest);
    }
    if !has_prefix(&v, REQUEST_START_MARKER) {
        return protocol_error(
            ProtocolErrorType::StartMarkerNotFound(String::from_str(REQUEST_START_MARKER)),
        );
    }
    let ends = n >= 2 && v[n - 2] == '/' && v[n - 1] == '\n';
    assert(ends == REQUEST_END_MARKER@.is_suffix_of(v@)) by {
        if ends {
            assert(v@.subrange(n - 2, n as int) =~= REQUEST_END_MARKER@);
        }
        if REQUEST_END_MARKER@.is_suffix_of(v@) {
            assert(v@.subrange(n - 2, n as int)[0] == '/');
            assert(v@.subrange(n - 2, n as int)[1] == '\n');
        }
    }
    if !ends || n <= start.len() + end.len() {
        return protocol_error(
            ProtocolErrorType::EndMarkerNotFound(String::from_str(REQUEST_END_MARKER)),
        );
    }
    Ok(())
}

/// The failure of the frame check, as it is reported.
pub fn protocol_error(error_type: ProtocolErrorType) -> (result: Result<(), String>)
    ensures
        result matches Err(error) && error@ == error_type@.message(),
{
    Err(ProtocolError { error_type }.to_string())
}

/// The request inside a line that is a frame.
pub fn request_body(line: &str) -> (body: &str)
    requires
        frame_fault(line@) is None,
    ensures
        body@ == body_of(line@),
{
    proof {
        reveal_strlit("/\n");
        reveal_strlit("CASP/");
    }
    let v = chars_of(line);
    let from = REQUEST_START_MARKER.unicode_len();
    let to = v.len() - REQUEST_END_MARKER.unicode_len();
    let inner = line.substring_char(from, to);
    let w = chars_of(inner);
    let bounds = trim_window(&w, 0, w.len(), true);
    inner.substring_char(bounds.0, bounds.1)
}

/// Reads the request out of a line that came from the client at `address`.
/// A line that is no frame gives the step that reports it and closes the
/// connection, and the client is no longer authenticated; a frame that holds
/// no request gives the step that reports that and reads on.
pub fn read_request<'a>(state: &mut State, address: &str, line: &'a str) -> (result: Result<
    QueryRequest<'a>,
    Action,
>)
    ensures
        final(state).wf(),
        final(state).secret() == old(state).secret(),
        final(state).kind() == old(state).kind(),
        final(state).db() == old(state).db(),
        match frame_fault(line@) {
            Some(kind) => {
                &&& result matches Err(action) && action@ == Step::ReplyAndClose(
                    error_frame(kind.message()),
                )
                &&& final(state).sessions() == old(state).sessions().remove(address@)
            },
            None => {
                &&& final(state).sessions() == old(state).sessions()
                &&& match request_of(body_of(line@), old(state).kind()) {
                    Err(kind) => result matches Err(action) && action@ == Step::Reply(
                        error_frame(kind.message()),
                    ),
                    Ok(request) => result matches Ok(found) && found@ == request,
                }
            },
        },
{
    proof {
        use_type_invariant(&*state);
    }
    match check_protocol(line) {
        Ok(_) => {},
        Err(error) => {
            state.deauthenticate(address);
            return Err(Action::ReplyAndClose(QueryResponse::error(error.as_str())));
        },
    }
    let database_type = state.database_type();
    match parse(request_body(line), &database_type) {
        Ok(query) => Ok(query),
        Err(error) => Err(Action::Reply(QueryResponse::error(error.as_str()))),
    }
}

/// Executes a request of the client at `address` and encodes the answer.
pub fn answer_request(state: &mut State, address: &str, request: QueryRequest) -> (action: Action)
    ensures
        action@ == step_for(reply_to(*old(state), address@, request@), old(state).kind()),
        state_after(*old(state), address@, request@, *final(state)),
        plain_map(old(state).db()@) && plain_request(request@) ==> plain_map(final(state).db()@)
            && framed(action@),
{
    let ghost before = *state;
    let ghost asked = request@;
    proof {
        use_type_invariant(&*state);
        if plain_map(before.db()@) && plain_request(asked) {
            lemma_reply_in_envelope(before, address@, asked);
        }
    }
    let database_type = state.database_type();
    let action = answer(state, address, request, database_type);
    proof {
        if plain_map(before.db()@) && plain_request(asked) {
            lemma_store_stays_plain(before, address@, asked, *state);
        }
    }
    action
}

/// Executes a request and encodes the answer for a store of the given type.
fn answer(
    state: &mut State,
    address: &str,
    request: QueryRequest,
    database_type: DatabaseType,
) -> (action: Action)
    requires
        database_type == old(state).kind(),
    ensures
        action@ == step_for(reply_to(*old(state), address@, request@), old(state).kind()),
        state_after(*old(state), address@, request@, *final(state)),
{
    match state.execute_request(address, request) {
        Ok(result) => {
            let stop = match result {
                QueryResponseType::SHUTDOWN_OK => true,
                _ => false,
            };
            let frame = QueryResponse::ok(result, &database_type);
            if stop {
                Action::ReplyAndShutdown(frame)
            } else {
                Action::Reply(frame)
            }
        },
        Err(error) => Action::Reply(QueryResponse::error(error.as_str())),
    }
}

/// Takes one step on the connection of the client at `address`.
///
/// A line that is no frame is answered with the error and the connection is
/// closed. A line that is a frame is parsed and executed; the answer is
/// written and the connection stays open, unless the request was a
/// successful `SHUTDOWN`. When the connection ends, for whatever reason, the
/// client is no longer authenticated.
pub fn handle_event(state: &mut State, address: &str, event: Event) -> (action: Action)
    ensures
        final(state).wf(),
        final(state).secret() == old(state).secret(),
        final(state).kind() == old(state).kind(),
        plain_map(old(state).db()@) && (event matches Event::Line(line) ==> one_line(line@))
            ==> plain_map(final(state).db()@) && (action@ is Close || framed(action@)),
        match event {
            Event::Closed => {
                &&& action@ == Step::Close
                &&& final(state).db() == old(state).db()
                &&& final(state).sessions() == old(state).sessions().remove(address@)
            },
            Event::Shutdown => {
                &&& action@ == Step::ReplyAndClose(warn_frame("SHUTDOWN"@))
                &&& final(state).db() == old(state).db()
                &&& final(state).sessions() == old(state).sessions().remove(address@)
            },
            Event::Line(line) => {
                &&& action@ == reaction(*old(state), address@, line@)
                &&& match frame_fault(line@) {
                    Some(_) => {
                        &&& final(state).db() == old(state).db()
                        &&& final(state).sessions() == old(state).sessions().remove(address@)
                    },
                    None => match request_of(body_of(line@), old(state).kind()) {
                        Err(_) => {
                            &&& final(state).db() == old(state).db()
                            &&& final(state).sessions() == old(state).sessions()
                        },
                        Ok(request) => state_after(*old(state), address@, request, *final(state)),
                    },
                }
            },
        },
{
    let ghost before = *state;
    proof {
        use_type_invariant(&*state);
        lemma_shutdown_notice_in_envelope();
    }
    match event {
        Event::Closed => {
            state.deauthenticate(address);
            Action::Close
        },
        Event::Shutdown => {
            state.deauthenticate(address);
            Action::ReplyAndClose(QueryResponse::warn("SHUTDOWN"))
        },
        Event::Line(line) => {
            proof {
                if plain_map(before.db()@) && one_line(line@) {
                    lemma_reaction_in_envelope(before, address@, line@);
                }
            }
            match read_request(state, address, line) {
                Ok(request) => {
                    let ghost read = *state;
                    let database_type = state.database_type();
                    let action = answer(state, address, request, database_type);
                    proof {
                        assert(read.sessions() == before.sessions());
                        assert(state_after(before, address@, request@, *state));
                        if plain_map(before.db()@) && one_line(line@) {
                            lemma_line_keeps_store_plain(before, address@, line@, *state);
                        }
                    }
                    action
                },
                Err(action) => action,
            }
        },
    }
}

} // verus!
