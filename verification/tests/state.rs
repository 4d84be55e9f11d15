use cachew::schemas::{DatabaseType, KeyValuePair, QueryRequest, QueryResponseType, ValueType};
use cachew::state::State;

#[test]
fn test_authentication() {
    let database_type = DatabaseType::Str;
    let mut state: State = State::new(database_type, "pwd123".to_string());

    let client_address: &str = "0.0.0.0:0000";

    let authenticated = state.authenticate(client_address, "pwd123");
    assert_eq!(authenticated, Ok(QueryResponseType::AUTH_OK));

    let is_authenticated = state.is_authenticated(client_address.to_owned());
    assert!(is_authenticated);

    state.deauthenticate(client_address);
    assert!(!state.is_authenticated(client_address.to_owned()));

    let failed_authentication = state.authenticate(client_address, "wrongpassword");
    assert_eq!(
        failed_authentication.unwrap_err(),
        "AuthenticationError 'authenticationFailed': Wrong password."
    );
}

#[test]
fn test_execute_query() {
    let database_type = DatabaseType::Str;
    let mut state: State = State::new(database_type, "pwd123".to_string());

    let client_address: &str = "0.0.0.0:0000";

    // request without being authenticated
    let not_authenticated = state.execute_request(
        client_address,
        QueryRequest::SET(KeyValuePair {
            key: "key".to_string(),
            value: ValueType::Str("value".to_string()),
        }),
    );
    assert_eq!(
        not_authenticated.unwrap_err(),
        "AuthenticationError 'notAuthenticated': Please authenticate before executing queries."
    );

    // make authentication request
    let authentication_request =
        state.execute_request(client_address, QueryRequest::AUTH("pwd123".to_string()));
    assert_eq!(authentication_request, Ok(QueryResponseType::AUTH_OK));

    // test query requests

    let response_set = state.execute_request(
        client_address,
        QueryRequest::SET(KeyValuePair {
            key: "key".to_string(),
            value: ValueType::Str("value".to_string()),
        }),
    );
    assert_eq!(response_set, Ok(QueryResponseType::SET_OK));

    let response_set_many = state.execute_request(
        client_address,
        QueryRequest::SET_MANY(vec![
            KeyValuePair { key: "key1".to_string(), value: ValueType::Str("value1".to_string()) },
            KeyValuePair { key: "key2".to_string(), value: ValueType::Str("value2".to_string()) },
            KeyValuePair { key: "key3".to_string(), value: ValueType::Str("value3".to_string()) },
            KeyValuePair { key: "key4".to_string(), value: ValueType::Str("value4".to_string()) },
            KeyValuePair { key: "key5".to_string(), value: ValueType::Str("value5".to_string()) },
        ]),
    );
    assert_eq!(response_set_many, Ok(QueryResponseType::SET_MANY_OK));

    let response_get = state.execute_request(client_address, QueryRequest::GET("key1".to_string()));
    assert_eq!(response_get, Ok(QueryResponseType::GET_OK(ValueType::Str("value1".to_string()))));

    let response_get_many =
        state.execute_request(client_address, QueryRequest::GET_MANY(vec!["key3", "key2"]));
    assert_eq!(
        response_get_many,
        Ok(QueryResponseType::GET_MANY_OK(vec![
            ValueType::Str("value3".to_string()),
            ValueType::Str("value2".to_string())
        ]))
    );

    let response_get_range = state.execute_request(
        client_address,
        QueryRequest::GET_RANGE { key_lower: "key2".to_string(), key_upper: "key4".to_string() },
    );
    assert_eq!(
        response_get_range,
        Ok(QueryResponseType::GET_RANGE_OK(vec![
            ValueType::Str("value2".to_string()),
            ValueType::Str("value3".to_string()),
            ValueType::Str("value4".to_string())
        ]))
    );

    let response_ping =
        state.execute_request(client_address, QueryRequest::EXISTS("key2".to_owned()));
    assert_eq!(response_ping, Ok(QueryResponseType::EXISTS_OK(true)));

    let response_del = state.execute_request(client_address, QueryRequest::DEL("key1".to_string()));
    assert_eq!(response_del, Ok(QueryResponseType::DEL_OK));

    let response_del_many =
        state.execute_request(client_address, QueryRequest::DEL_MANY(vec!["key4", "key3"]));
    assert_eq!(response_del_many, Ok(QueryResponseType::DEL_MANY_OK));

    let response_del_range = state.execute_request(
        client_address,
        QueryRequest::DEL_RANGE { key_lower: "key2".to_string(), key_upper: "key5".to_string() },
    );
    assert_eq!(response_del_range, Ok(QueryResponseType::DEL_RANGE_OK));

    let response_clear = state.execute_request(client_address, QueryRequest::CLEAR);
    assert_eq!(response_clear, Ok(QueryResponseType::CLEAR_OK));

    let response_len = state.execute_request(client_address, QueryRequest::LEN);
    assert_eq!(response_len, Ok(QueryResponseType::LEN_OK(0)));

    let response_ping = state.execute_request(client_address, QueryRequest::PING);
    assert_eq!(response_ping, Ok(QueryResponseType::PING_OK));
}

#[test]
fn requests_before_authentication_leave_the_store_alone() {
    let mut state = State::new(DatabaseType::Int, "pwd123".to_string());
    let known = "10.0.0.1:1";
    let stranger = "10.0.0.2:2";
    assert_eq!(
        state.execute_request(known, QueryRequest::AUTH("pwd123".to_string())),
        Ok(QueryResponseType::AUTH_OK)
    );
    assert_eq!(
        state.execute_request(
            known,
            QueryRequest::SET(KeyValuePair { key: "k".to_string(), value: ValueType::Int(1) })
        ),
        Ok(QueryResponseType::SET_OK)
    );
    let refused = "AuthenticationError 'notAuthenticated': Please authenticate before executing queries.";
    let attempts = vec![
        QueryRequest::GET("k".to_string()),
        QueryRequest::SET(KeyValuePair { key: "k".to_string(), value: ValueType::Int(2) }),
        QueryRequest::SET_MANY(vec![KeyValuePair { key: "j".to_string(), value: ValueType::Int(2) }]),
        QueryRequest::DEL("k".to_string()),
        QueryRequest::DEL_MANY(vec!["k"]),
        QueryRequest::DEL_RANGE { key_lower: "a".to_string(), key_upper: "z".to_string() },
        QueryRequest::GET_RANGE { key_lower: "a".to_string(), key_upper: "z".to_string() },
        QueryRequest::GET_MANY(vec!["k"]),
        QueryRequest::CLEAR,
        QueryRequest::LEN,
        QueryRequest::PING,
        QueryRequest::EXISTS("k".to_string()),
        QueryRequest::SHUTDOWN,
    ];
    for request in attempts {
        assert_eq!(state.execute_request(stranger, request).unwrap_err(), refused);
    }
    assert!(!state.is_authenticated(stranger.to_string()));
    assert_eq!(
        state.execute_request(known, QueryRequest::GET("k".to_string())),
        Ok(QueryResponseType::GET_OK(ValueType::Int(1)))
    );
    assert_eq!(state.execute_request(known, QueryRequest::LEN), Ok(QueryResponseType::LEN_OK(1)));
}

#[test]
fn a_second_auth_keeps_the_client_authenticated() {
    let mut state = State::new(DatabaseType::Int, "pwd123".to_string());
    let address = "10.0.0.1:1";
    assert_eq!(
        state.execute_request(address, QueryRequest::AUTH("pwd123".to_string())),
        Ok(QueryResponseType::AUTH_OK)
    );
    assert_eq!(
        state.execute_request(address, QueryRequest::AUTH("pwd123".to_string())),
        Ok(QueryResponseType::AUTH_OK)
    );
    assert_eq!(
        state.execute_request(address, QueryRequest::AUTH("other".to_string())).unwrap_err(),
        "AuthenticationError 'authenticationFailed': Wrong password."
    );
    assert!(state.is_authenticated(address.to_string()));
    state.deauthenticate(address);
    assert!(!state.is_authenticated(address.to_string()));
    state.deauthenticate(address);
    assert!(!state.is_authenticated(address.to_string()));
    assert_eq!(state.database_type(), DatabaseType::Int);
}
