use cachew::response::QueryResponse;
use cachew::schemas::{DatabaseType, FloatText, QueryResponseType, ValueType};

fn float(text: impl AsRef<str>) -> ValueType {
    ValueType::Float(FloatText::new(text.as_ref()).unwrap())
}

#[test]
fn test_get_string() {
    let response = QueryResponse::ok(
        QueryResponseType::GET_OK(ValueType::Str("value".to_string())),
        &DatabaseType::Str,
    );
    assert_eq!(response, "CASP/OK/STR/GET/\"value\"/\n")
}

#[test]
fn test_get_int() {
    let response =
        QueryResponse::ok(QueryResponseType::GET_OK(ValueType::Int(-100)), &DatabaseType::Int);
    assert_eq!(response, "CASP/OK/INT/GET/-100/\n")
}

#[test]
fn test_get_float() {
    let response = QueryResponse::ok(
        QueryResponseType::GET_OK(float(0.01f32.to_string())),
        &DatabaseType::Float,
    );
    assert_eq!(response, "CASP/OK/FLOAT/GET/0.01/\n")
}

#[test]
fn test_get_range_string() {
    let response = QueryResponse::ok(
        QueryResponseType::GET_RANGE_OK(vec![
            ValueType::Str("value1".to_string()),
            ValueType::Str("value2".to_string()),
        ]),
        &DatabaseType::Str,
    );
    assert_eq!(response, "CASP/OK/STR/GET RANGE/\"value1\",\"value2\"/\n")
}

#[test]
fn test_get_range_float() {
    let response = QueryResponse::ok(
        QueryResponseType::GET_RANGE_OK(vec![
            float(0.01f32.to_string()),
            float(0.02f32.to_string()),
            float(0.03f32.to_string()),
        ]),
        &DatabaseType::Float,
    );
    assert_eq!(response, "CASP/OK/FLOAT/GET RANGE/0.01,0.02,0.03/\n")
}

#[test]
fn test_get_many_string() {
    let response = QueryResponse::ok(
        QueryResponseType::GET_MANY_OK(vec![
            ValueType::Str("value1".to_string()),
            ValueType::Str("value2".to_string()),
        ]),
        &DatabaseType::Str,
    );
    assert_eq!(response, "CASP/OK/STR/GET MANY/\"value1\",\"value2\"/\n")
}

#[test]
fn response_test_del() {
    let response = QueryResponse::ok(QueryResponseType::DEL_OK, &DatabaseType::Float);
    assert_eq!(response, "CASP/OK/DEL/\n")
}

#[test]
fn response_test_del_range() {
    let response = QueryResponse::ok(QueryResponseType::DEL_RANGE_OK, &DatabaseType::Str);
    assert_eq!(response, "CASP/OK/DEL RANGE/\n")
}

#[test]
fn response_test_del_many() {
    let response = QueryResponse::ok(QueryResponseType::DEL_MANY_OK, &DatabaseType::Str);
    assert_eq!(response, "CASP/OK/DEL MANY/\n")
}

#[test]
fn response_test_set() {
    let response = QueryResponse::ok(QueryResponseType::SET_OK, &DatabaseType::Int);
    assert_eq!(response, "CASP/OK/SET/\n")
}

#[test]
fn response_test_set_many() {
    let response = QueryResponse::ok(QueryResponseType::SET_MANY_OK, &DatabaseType::Str);
    assert_eq!(response, "CASP/OK/SET MANY/\n")
}

#[test]
fn test_auth() {
    let response = QueryResponse::ok(QueryResponseType::AUTH_OK, &DatabaseType::Float);
    assert_eq!(response, "CASP/OK/AUTH/\n")
}

#[test]
fn test_clear() {
    let response = QueryResponse::ok(QueryResponseType::CLEAR_OK, &DatabaseType::Bool);
    assert_eq!(response, "CASP/OK/CLEAR/\n")
}

#[test]
fn test_len() {
    let response = QueryResponse::ok(QueryResponseType::LEN_OK(3), &DatabaseType::Json);
    assert_eq!(response, "CASP/OK/LEN/3/\n")
}

#[test]
fn test_ping() {
    let response = QueryResponse::ok(QueryResponseType::PING_OK, &DatabaseType::Str);
    assert_eq!(response, "CASP/OK/PING/PONG/\n")
}

#[test]
fn test_exists() {
    let response = QueryResponse::ok(QueryResponseType::EXISTS_OK(true), &DatabaseType::Str);
    assert_eq!(response, "CASP/OK/EXISTS/true/\n");

    let response = QueryResponse::ok(QueryResponseType::EXISTS_OK(false), &DatabaseType::Str);
    assert_eq!(response, "CASP/OK/EXISTS/false/\n")
}

#[test]
fn test_error() {
    let response = QueryResponse::error("This is an error message.");
    assert_eq!(response, "CASP/ERROR/This is an error message./\n")
}

#[test]
fn shutdown_is_answered_and_warned_of() {
    assert_eq!(
        QueryResponse::ok(QueryResponseType::SHUTDOWN_OK, &DatabaseType::Int),
        "CASP/OK/SHUTDOWN/\n"
    );
    assert_eq!(QueryResponse::warn("SHUTDOWN"), "CASP/WARN/SHUTDOWN/\n");
}

#[test]
fn values_are_rendered_by_their_type() {
    assert_eq!(QueryResponse::handle_value_types(&ValueType::Bool(true)), "true");
    assert_eq!(QueryResponse::handle_value_types(&ValueType::Bool(false)), "false");
    assert_eq!(QueryResponse::handle_value_types(&ValueType::Int(i32::MIN)), "-2147483648");
    assert_eq!(QueryResponse::handle_value_types(&ValueType::Int(0)), "0");
    assert_eq!(QueryResponse::handle_value_types(&ValueType::Int(i32::MAX)), "2147483647");
    assert_eq!(
        QueryResponse::handle_value_types(&ValueType::Json("{\"a\": [1, 2]}".to_string())),
        "{\"a\": [1, 2]}"
    );
    assert_eq!(QueryResponse::handle_value_types(&ValueType::Str("a b".to_string())), "\"a b\"");
    assert_eq!(QueryResponse::join_values(&vec![]), "");
    assert_eq!(
        QueryResponse::join_values(&vec![ValueType::Int(1), ValueType::Int(-2), ValueType::Int(3)]),
        "1,-2,3"
    );
    assert_eq!(
        QueryResponse::ok(QueryResponseType::GET_MANY_OK(vec![]), &DatabaseType::Bool),
        "CASP/OK/BOOL/GET MANY//\n"
    );
    assert_eq!(
        QueryResponse::ok(QueryResponseType::LEN_OK(1234567890), &DatabaseType::Json),
        "CASP/OK/LEN/1234567890/\n"
    );
    assert_eq!(
        QueryResponse::ok(
            QueryResponseType::GET_OK(ValueType::Json("[]".to_string())),
            &DatabaseType::Json
        ),
        "CASP/OK/JSON/GET/[]/\n"
    );
}
