use cachew::schemas::DatabaseType;
use cachew::schemas::{FloatText, KeyValuePair, QueryRequest, ValueType};
use cachew::server::{
    answer_request, check_protocol, handle_event, read_request, request_body, Action, Event,
    REQUEST_END_MARKER, REQUEST_START_MARKER,
};
use cachew::state::State;

fn float(text: impl AsRef<str>) -> ValueType {
    ValueType::Float(FloatText::new(text.as_ref()).unwrap())
}

fn send(state: &mut State, address: &str, line: &str) -> Action {
    handle_event(state, address, Event::Line(line))
}

fn reply(frame: &str) -> Action {
    Action::Reply(frame.to_string())
}

fn frame_of(action: &Action) -> &str {
    match action {
        Action::Reply(frame) | Action::ReplyAndClose(frame) | Action::ReplyAndShutdown(frame) => {
            frame
        }
        Action::Close => panic!("no frame"),
    }
}

fn in_envelope(frame: &str) -> bool {
    let starts = frame.starts_with("CASP/OK/")
        || frame.starts_with("CASP/WARN/")
        || frame.starts_with("CASP/ERROR/");
    starts && frame.ends_with("/\n") && !frame[..frame.len() - 1].contains('\n')
}

#[test]
fn test_check_protocol() {
    let request_set = check_protocol("CASP/SET key value/\n");
    assert_eq!(request_set, Ok(()));

    let protocol_validity = check_protocol("");
    assert_eq!(
        protocol_validity.unwrap_err(),
        "ProtocolError 'emptyRequest': Can't process empty request."
    );

    let protocol_validity = check_protocol("CAS/SET key value/\n");
    assert_eq!(
        protocol_validity.unwrap_err(),
        format!(
            "ProtocolError 'startMarkerNotFound': Expected request to start with '{}'.",
            REQUEST_START_MARKER
        )
    );

    let protocol_validity = check_protocol("CASP/SET key value");
    assert_eq!(
        protocol_validity.unwrap_err(),
        format!(
            "ProtocolError 'endMarkerNotFound': Expected request to end with '{}'.",
            REQUEST_END_MARKER.replace('\n', "\\n")
        )
    );
}

#[test]
fn frames_without_a_body_are_refused() {
    let end = "ProtocolError 'endMarkerNotFound': Expected request to end with '/\\n'.";
    assert_eq!(check_protocol("CASP//\n").unwrap_err(), end);
    assert_eq!(check_protocol("CASP/\n").unwrap_err(), end);
    assert_eq!(check_protocol("CASP/").unwrap_err(), end);
    assert_eq!(
        check_protocol("\n").unwrap_err(),
        "ProtocolError 'emptyRequest': Can't process empty request."
    );
    assert_eq!(check_protocol("CASP/x/\n"), Ok(()));
    assert_eq!(request_body("CASP/  PING \t/\n"), "PING");
    assert_eq!(request_body("CASP/SET \"a/b\" 7/\n"), "SET \"a/b\" 7");
}

#[test]
fn auth_then_set_then_get() {
    let mut state = State::new(DatabaseType::Str, "mypwd123".to_string());
    let address = "127.0.0.1:5000";
    assert_eq!(send(&mut state, address, "CASP/AUTH mypwd123/\n"), reply("CASP/OK/AUTH/\n"));
    assert_eq!(send(&mut state, address, "CASP/SET k \"v\"/\n"), reply("CASP/OK/SET/\n"));
    assert_eq!(send(&mut state, address, "CASP/GET k/\n"), reply("CASP/OK/STR/GET/\"v\"/\n"));
    assert_eq!(
        send(&mut state, address, "CASP/SET k0 \"hello world\"/\n"),
        reply("CASP/OK/SET/\n")
    );
    assert_eq!(
        send(&mut state, address, "CASP/GET k0/\n"),
        reply("CASP/OK/STR/GET/\"hello world\"/\n")
    );
    assert_eq!(send(&mut state, address, "CASP/PING/\n"), reply("CASP/OK/PING/PONG/\n"));
}

#[test]
fn range_query() {
    let mut state = State::new(DatabaseType::Int, "mypwd123".to_string());
    let address = "127.0.0.1:5000";
    assert_eq!(send(&mut state, address, "CASP/AUTH mypwd123/\n"), reply("CASP/OK/AUTH/\n"));
    assert_eq!(
        send(&mut state, address, "CASP/SET MANY a 1, b 2, c 3/\n"),
        reply("CASP/OK/SET MANY/\n")
    );
    assert_eq!(
        send(&mut state, address, "CASP/GET RANGE a c/\n"),
        reply("CASP/OK/INT/GET RANGE/1,2,3/\n")
    );
    let action = send(&mut state, address, "CASP/GET RANGE c a/\n");
    assert!(matches!(&action, Action::Reply(frame)
        if frame.starts_with("CASP/ERROR/DatabaseError 'invalidRangeOrder': ") && frame.ends_with("/\n")));
    assert_eq!(
        send(&mut state, address, "CASP/SET MANY k0 1, k1 -2, k2 3/\n"),
        reply("CASP/OK/SET MANY/\n")
    );
    assert_eq!(
        send(&mut state, address, "CASP/GET RANGE k0 k2/\n"),
        reply("CASP/OK/INT/GET RANGE/1,-2,3/\n")
    );
    assert_eq!(send(&mut state, address, "CASP/LEN/\n"), reply("CASP/OK/LEN/6/\n"));
}

#[test]
fn type_mismatch_on_set() {
    let mut state = State::new(DatabaseType::Float, "mypwd123".to_string());
    let address = "127.0.0.1:5000";
    assert_eq!(send(&mut state, address, "CASP/AUTH mypwd123/\n"), reply("CASP/OK/AUTH/\n"));
    let action = send(&mut state, address, "CASP/SET k notanumber/\n");
    assert!(matches!(&action, Action::Reply(frame)
        if frame.starts_with("CASP/ERROR/ParserError 'wrongValueType': ")
            && frame.contains("FLOAT") && frame.ends_with("/\n")));
    assert_eq!(send(&mut state, address, "CASP/LEN/\n"), reply("CASP/OK/LEN/0/\n"));
}

#[test]
fn authorization() {
    let mut state = State::new(DatabaseType::Str, "mypwd123".to_string());
    let address = "127.0.0.1:5000";
    let action = send(&mut state, address, "CASP/GET k/\n");
    assert!(matches!(&action, Action::Reply(frame)
        if frame.starts_with("CASP/ERROR/AuthenticationError 'notAuthenticated': ")
            && frame.ends_with("/\n")));
    let action = send(&mut state, address, "CASP/AUTH wrong/\n");
    assert!(matches!(&action, Action::Reply(frame)
        if frame.starts_with("CASP/ERROR/AuthenticationError 'authenticationFailed': ")
            && frame.ends_with("/\n")));
    assert!(!state.is_authenticated(address.to_string()));
    let action = send(&mut state, address, "CASP/SHUTDOWN/\n");
    assert!(matches!(&action, Action::Reply(frame)
        if frame.starts_with("CASP/ERROR/AuthenticationError 'notAuthenticated': ")));
}

#[test]
fn quoted_key_with_slash() {
    let mut state = State::new(DatabaseType::Int, "mypwd123".to_string());
    let address = "127.0.0.1:5000";
    assert_eq!(send(&mut state, address, "CASP/AUTH mypwd123/\n"), reply("CASP/OK/AUTH/\n"));
    assert_eq!(send(&mut state, address, "CASP/SET \"a/b\" 7/\n"), reply("CASP/OK/SET/\n"));
    assert_eq!(send(&mut state, address, "CASP/GET \"a/b\"/\n"), reply("CASP/OK/INT/GET/7/\n"));
    assert_eq!(
        send(&mut state, address, "CASP/EXISTS \"a/b\"/\n"),
        reply("CASP/OK/EXISTS/true/\n")
    );
}

#[test]
fn shutdown_broadcast() {
    let mut state = State::new(DatabaseType::Int, "mypwd123".to_string());
    let a = "127.0.0.1:5000";
    let b = "127.0.0.1:5001";
    assert_eq!(send(&mut state, a, "CASP/AUTH mypwd123/\n"), reply("CASP/OK/AUTH/\n"));
    assert_eq!(send(&mut state, b, "CASP/AUTH mypwd123/\n"), reply("CASP/OK/AUTH/\n"));
    assert_eq!(
        send(&mut state, a, "CASP/SHUTDOWN/\n"),
        Action::ReplyAndShutdown("CASP/OK/SHUTDOWN/\n".to_string())
    );
    assert_eq!(
        handle_event(&mut state, b, Event::Shutdown),
        Action::ReplyAndClose("CASP/WARN/SHUTDOWN/\n".to_string())
    );
    assert!(!state.is_authenticated(b.to_string()));
}

#[test]
fn a_line_that_is_no_frame_closes_the_connection() {
    let mut state = State::new(DatabaseType::Int, "mypwd123".to_string());
    let address = "127.0.0.1:5000";
    assert_eq!(send(&mut state, address, "CASP/AUTH mypwd123/\n"), reply("CASP/OK/AUTH/\n"));
    assert_eq!(
        send(&mut state, address, "GET k\n"),
        Action::ReplyAndClose(
            "CASP/ERROR/ProtocolError 'startMarkerNotFound': Expected request to start with 'CASP/'./\n"
                .to_string()
        )
    );
    assert!(!state.is_authenticated(address.to_string()));
    assert_eq!(
        send(&mut state, address, "CASP/GET k\n"),
        Action::ReplyAndClose(
            "CASP/ERROR/ProtocolError 'endMarkerNotFound': Expected request to end with '/\\n'./\n"
                .to_string()
        )
    );
    assert_eq!(
        send(&mut state, address, "\n"),
        Action::ReplyAndClose(
            "CASP/ERROR/ProtocolError 'emptyRequest': Can't process empty request./\n".to_string()
        )
    );
}

#[test]
fn a_closed_connection_forgets_the_client() {
    let mut state = State::new(DatabaseType::Int, "mypwd123".to_string());
    let address = "127.0.0.1:5000";
    assert_eq!(send(&mut state, address, "CASP/AUTH mypwd123/\n"), reply("CASP/OK/AUTH/\n"));
    assert!(state.is_authenticated(address.to_string()));
    assert_eq!(handle_event(&mut state, address, Event::Closed), Action::Close);
    assert!(!state.is_authenticated(address.to_string()));
}

#[test]
fn a_parser_error_keeps_the_connection_open() {
    let mut state = State::new(DatabaseType::Str, "mypwd123".to_string());
    let address = "127.0.0.1:5000";
    assert_eq!(send(&mut state, address, "CASP/AUTH mypwd123/\n"), reply("CASP/OK/AUTH/\n"));
    assert_eq!(
        send(&mut state, address, "CASP/FETCH k/\n"),
        reply("CASP/ERROR/ParserError 'unknownQueryOperation': Query 'FETCH k' not recognized./\n")
    );
    assert_eq!(
        send(&mut state, address, "CASP/GET k/\n"),
        reply("CASP/ERROR/DatabaseError 'keyNotFound': The key 'k' doesn't exist./\n")
    );
    assert!(state.is_authenticated(address.to_string()));
}

#[test]
fn every_answer_is_one_frame() {
    let mut state = State::new(DatabaseType::Str, "mypwd123".to_string());
    let address = "127.0.0.1:5000";
    let lines = [
        "CASP/GET k/\n",
        "CASP/AUTH nope/\n",
        "CASP/AUTH mypwd123/\n",
        "CASP/SET k \"a / b\"/\n",
        "CASP/SET MANY a \"1\", b \"2\"/\n",
        "CASP/GET k/\n",
        "CASP/GET MANY a b k/\n",
        "CASP/GET RANGE a z/\n",
        "CASP/GET RANGE z a/\n",
        "CASP/GET missing/\n",
        "CASP/EXISTS k/\n",
        "CASP/LEN/\n",
        "CASP/PING/\n",
        "CASP/PING PONG/\n",
        "CASP/DEL k/\n",
        "CASP/DEL MANY a b/\n",
        "CASP/DEL RANGE a z/\n",
        "CASP/CLEAR/\n",
        "CASP/NOPE/\n",
        "CASP/SET k v/\n",
        "CASP/SHUTDOWN/\n",
        "CASP/x\n",
    ];
    for line in lines {
        let action = send(&mut state, address, line);
        assert!(in_envelope(frame_of(&action)), "{:?}", action);
    }
    let action = handle_event(&mut state, address, Event::Shutdown);
    assert!(in_envelope(frame_of(&action)));
}

#[test]
fn a_line_is_read_and_then_answered() {
    let mut state = State::new(DatabaseType::Float, "mypwd123".to_string());
    let address = "127.0.0.1:5000";
    assert_eq!(
        read_request(&mut state, address, "CASP/AUTH mypwd123/\n"),
        Ok(QueryRequest::AUTH("mypwd123".to_string()))
    );
    assert_eq!(
        answer_request(&mut state, address, QueryRequest::AUTH("mypwd123".to_string())),
        reply("CASP/OK/AUTH/\n")
    );
    assert_eq!(
        read_request(&mut state, address, "CASP/SET k 0.50/\n"),
        Ok(QueryRequest::SET(KeyValuePair {
            key: "k".to_string(),
            value: float("0.50".to_string())
        }))
    );
    let stored = QueryRequest::SET(KeyValuePair {
        key: "k".to_string(),
        value: float(0.5f32.to_string()),
    });
    assert_eq!(answer_request(&mut state, address, stored), reply("CASP/OK/SET/\n"));
    assert_eq!(send(&mut state, address, "CASP/GET k/\n"), reply("CASP/OK/FLOAT/GET/0.5/\n"));
    assert_eq!(
        read_request(&mut state, address, "CASP/SET k/\n"),
        Err(reply(
            "CASP/ERROR/ParserError 'invalidKeyValuePair': Expected two parameters (key and value), found 1./\n"
        ))
    );
    assert!(state.is_authenticated(address.to_string()));
    assert_eq!(
        answer_request(&mut state, address, QueryRequest::SHUTDOWN),
        Action::ReplyAndShutdown("CASP/OK/SHUTDOWN/\n".to_string())
    );
    assert_eq!(
        read_request(&mut state, address, "SET k 1\n"),
        Err(Action::ReplyAndClose(
            "CASP/ERROR/ProtocolError 'startMarkerNotFound': Expected request to start with 'CASP/'./\n"
                .to_string()
        ))
    );
    assert!(!state.is_authenticated(address.to_string()));
}

#[test]
fn a_line_feed_inside_a_line_is_carried_into_the_answer() {
    let mut state = State::new(DatabaseType::Int, "mypwd123".to_string());
    let address = "127.0.0.1:5000";
    assert_eq!(send(&mut state, address, "CASP/AUTH mypwd123/\n"), reply("CASP/OK/AUTH/\n"));
    let action = send(&mut state, address, "CASP/GET a\nb/\n");
    assert_eq!(
        action,
        reply("CASP/ERROR/DatabaseError 'keyNotFound': The key 'a\nb' doesn't exist./\n")
    );
    assert!(!in_envelope(frame_of(&action)));
}
