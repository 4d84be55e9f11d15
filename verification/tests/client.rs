use cachew::client::cli::{build_request, get_cli_command, CliCommand};
use cachew::client::parser::{parse_response, ParsedResponse, ResponseStatus};
use cachew::parser::split_at_delimiter;
use cachew::response::QueryResponse;
use cachew::schemas::{DatabaseType, FloatText, QueryResponseType, ValueType};

#[test]
fn test_split_slash_delimiter() {
    let split_string: Vec<&str> = split_at_delimiter("CASP/OK/GET/STR/\"oh/no\"/\n", '/');
    assert_eq!(split_string, vec!["CASP", "OK", "GET", "STR", "\"oh/no\"", "\n"]);

    let split_string: Vec<&str> = split_at_delimiter("\"\"", '/');
    assert_eq!(split_string, vec!["\"\""]);

    let string = "CASP/OK/GET/INT/key \"value/1\"/\n";
    let split_string: Vec<&str> = split_at_delimiter(&string, '/');
    assert_eq!(split_string, vec!["CASP", "OK", "GET", "INT", "key \"value/1\"", "\n"]);

    let string = "\"A/B/C//D\"";
    let split_string: Vec<&str> = split_at_delimiter(&string, '/');
    assert_eq!(split_string, vec!["\"A/B/C//D\""]);

    let string = "CASP/OK/GET/STR/\"sdf\\\"sdf\"/\n";
    let split_string: Vec<&str> = split_at_delimiter(&string, '/');
    assert_eq!(split_string, vec!["CASP", "OK", "GET", "STR", "\"sdf\\\"sdf\"", "\n"]);
}

#[test]
fn test_parse_response() {
    // test success cases

    let parsed_response = parse_response("CASP/OK/SET/\n");
    assert_eq!(
        parsed_response,
        Ok(ParsedResponse {
            status: ResponseStatus::OK,
            command: Some("SET".to_string()),
            value: None
        })
    );

    let parsed_response = parse_response("CASP/OK/GET MANY/INT/10,20,30/\n");
    assert_eq!(
        parsed_response,
        Ok(ParsedResponse {
            status: ResponseStatus::OK,
            command: Some("GET MANY".to_string()),
            value: Some("10,20,30".to_string())
        })
    );

    let parsed_response = parse_response("CASP/OK/LEN/10/\n");
    assert_eq!(
        parsed_response,
        Ok(ParsedResponse {
            status: ResponseStatus::OK,
            command: Some("LEN".to_string()),
            value: Some("10".to_string())
        })
    );

    let parsed_response = parse_response("CASP/ERROR/An error appeared./\n");
    assert_eq!(
        parsed_response,
        Ok(ParsedResponse {
            status: ResponseStatus::ERROR,
            command: None,
            value: Some("An error appeared.".to_string())
        })
    );

    let parsed_response = parse_response("CASP/WARN/SHUTDOWN/\n");
    assert_eq!(
        parsed_response,
        Ok(ParsedResponse {
            status: ResponseStatus::WARN,
            command: Some("SHUTDOWN".to_string()),
            value: None
        })
    );

    // test failures
    let parsed_response = parse_response("");
    assert_eq!(
        parsed_response.unwrap_err(),
        "Failed to parse response: Received empty response."
    );

    let parsed_response = parse_response("OK/SET/\n");
    assert_eq!(
        parsed_response.unwrap_err(),
        "Failed to parse response: Prefix 'CASP' not found."
    );

    let parsed_response = parse_response("CA/SP/OK/SET/\n");
    assert_eq!(
        parsed_response.unwrap_err(),
        "Failed to parse response: Prefix 'CASP' not found."
    );

    let parsed_response = parse_response("CASP/OK/GET MANY/1,2,3");
    assert_eq!(
        parsed_response.unwrap_err(),
        r#"Failed to parse response: Suffix '\n' not found."#
    );

    let parsed_response = parse_response("CASP/SET/\n");
    assert_eq!(
        parsed_response.unwrap_err(),
        "Failed to parse response: No status identifier found (expected one of: OK, ERROR)."
    );

    let parsed_response = parse_response("CASP/OK/SET/key/\n");
    assert_eq!(
        parsed_response.unwrap_err(),
        r#"Failed to parse response: Expected OK responses to consist of four parts (CASP + OK + <command> + \n)."#
    );

    let parsed_response = parse_response("CASP/OK/GET/\"value/1\"/\n");
    assert_eq!(
        parsed_response.unwrap_err(),
        r#"Failed to parse response: Expected GET OK responses to consist of six parts (CASP + OK + <command> + <type> + <value> + \n)."#
    );

    let parsed_response = parse_response("CASP/OK/EXISTS/\n");
    assert_eq!(
        parsed_response.unwrap_err(),
        r#"Failed to parse response: Expected EXISTS, PING, LEN OK responses to consist of five parts (CASP + OK + <command> + <message> + \n)."#
    );

    let parsed_response = parse_response("CASP/ERROR/\n");
    assert_eq!(
        parsed_response.unwrap_err(),
        r#"Failed to parse response: Expected ERROR responses to consist of four parts (CASP + ERROR + message + \n)."#
    );

    let parsed_response = parse_response("CASP/WARN/SHUTDOWN/Server shutting down!/\n");
    assert_eq!(
        parsed_response.unwrap_err(),
        r#"Failed to parse response: Expected WARN responses to consist of four parts (CASP + WARN + <command> + \n)."#
    );
}

#[test]
fn short_frames_are_refused() {
    assert_eq!(
        parse_response("CASP/\n").unwrap_err(),
        "Failed to parse response: No status identifier found (expected one of: OK, ERROR)."
    );
    assert_eq!(
        parse_response("CASP").unwrap_err(),
        r#"Failed to parse response: Suffix '\n' not found."#
    );
    assert_eq!(
        parse_response("CASP/OK/\n").unwrap_err(),
        r#"Failed to parse response: Expected OK responses to consist of four parts (CASP + OK + <command> + \n)."#
    );
}

#[test]
fn answers_without_values_are_read_back() {
    let database_type = DatabaseType::Int;
    let cases = vec![
        (QueryResponseType::DEL_OK, "DEL", None),
        (QueryResponseType::DEL_RANGE_OK, "DEL RANGE", None),
        (QueryResponseType::DEL_MANY_OK, "DEL MANY", None),
        (QueryResponseType::SET_OK, "SET", None),
        (QueryResponseType::SET_MANY_OK, "SET MANY", None),
        (QueryResponseType::AUTH_OK, "AUTH", None),
        (QueryResponseType::CLEAR_OK, "CLEAR", None),
        (QueryResponseType::SHUTDOWN_OK, "SHUTDOWN", None),
        (QueryResponseType::LEN_OK(42), "LEN", Some("42")),
        (QueryResponseType::PING_OK, "PING", Some("PONG")),
        (QueryResponseType::EXISTS_OK(true), "EXISTS", Some("true")),
        (QueryResponseType::EXISTS_OK(false), "EXISTS", Some("false")),
    ];
    for (response, command, value) in cases {
        let frame = QueryResponse::ok(response, &database_type);
        assert_eq!(
            parse_response(&frame),
            Ok(ParsedResponse {
                status: ResponseStatus::OK,
                command: Some(command.to_string()),
                value: value.map(|text| text.to_string())
            })
        );
    }
    assert_eq!(
        parse_response(&QueryResponse::warn("SHUTDOWN")),
        Ok(ParsedResponse {
            status: ResponseStatus::WARN,
            command: Some("SHUTDOWN".to_string()),
            value: None
        })
    );
    assert_eq!(
        parse_response(&QueryResponse::error("DatabaseError 'keyNotFound': The key 'k' doesn't exist.")),
        Ok(ParsedResponse {
            status: ResponseStatus::ERROR,
            command: None,
            value: Some("DatabaseError 'keyNotFound': The key 'k' doesn't exist.".to_string())
        })
    );
}

#[test]
fn requests_are_framed() {
    assert_eq!(build_request("GET k"), "CASP/GET k/\n");
    assert_eq!(build_request("  SET k \"v\" \n"), "CASP/SET k \"v\"/\n");
    assert_eq!(build_request(""), "CASP//\n");
}

#[test]
fn commands_of_the_client_start_with_a_dollar() {
    assert_eq!(get_cli_command("$exit"), CliCommand::Exit);
    assert_eq!(get_cli_command("$exit\n"), CliCommand::Exit);
    assert_eq!(get_cli_command("$ help  "), CliCommand::Help);
    assert_eq!(get_cli_command("$quit\n"), CliCommand::Unknown("quit".to_string()));
    assert_eq!(get_cli_command("$"), CliCommand::Unknown("".to_string()));
    assert_eq!(get_cli_command("GET k\n"), CliCommand::DatabaseRequest("GET k\n".to_string()));
    assert_eq!(get_cli_command(" $exit"), CliCommand::DatabaseRequest(" $exit".to_string()));
}

#[test]
fn answers_with_values_are_read_back() {
    let frame = QueryResponse::ok(QueryResponseType::GET_OK(ValueType::Int(7)), &DatabaseType::Int);
    assert_eq!(frame, "CASP/OK/INT/GET/7/\n");
    assert_eq!(
        parse_response(&frame),
        Ok(ParsedResponse {
            status: ResponseStatus::OK,
            command: Some("GET".to_string()),
            value: Some("7".to_string())
        })
    );
    let cases = vec![
        (
            QueryResponseType::GET_OK(ValueType::Str("a/b \\\" c".to_string())),
            DatabaseType::Str,
            "GET",
            "\"a/b \\\" c\"",
        ),
        (
            QueryResponseType::GET_OK(ValueType::Json(" {\\\"u\\\": \\\"http://x/y\\\"} ".to_string())),
            DatabaseType::Json,
            "GET",
            " {\\\"u\\\": \\\"http://x/y\\\"} ",
        ),
        (
            QueryResponseType::GET_OK(ValueType::Json("\"".to_string())),
            DatabaseType::Json,
            "GET",
            "\"",
        ),
        (
            QueryResponseType::GET_RANGE_OK(vec![
                ValueType::Int(1),
                ValueType::Int(-2),
                ValueType::Int(3),
            ]),
            DatabaseType::Int,
            "GET RANGE",
            "1,-2,3",
        ),
        (QueryResponseType::GET_RANGE_OK(vec![]), DatabaseType::Bool, "GET RANGE", ""),
        (
            QueryResponseType::GET_MANY_OK(vec![ValueType::Bool(true), ValueType::Bool(false)]),
            DatabaseType::Bool,
            "GET MANY",
            "true,false",
        ),
        (
            QueryResponseType::GET_MANY_OK(vec![
                ValueType::Float(FloatText::new("0.5").unwrap()),
                ValueType::Float(FloatText::new("-inf").unwrap()),
            ]),
            DatabaseType::Float,
            "GET MANY",
            "0.5,-inf",
        ),
    ];
    for (response, database_type, command, value) in cases {
        let frame = QueryResponse::ok(response, &database_type);
        assert_eq!(
            parse_response(&frame),
            Ok(ParsedResponse {
                status: ResponseStatus::OK,
                command: Some(command.to_string()),
                value: Some(value.to_string())
            }),
            "{:?}",
            frame
        );
    }
}

#[test]
fn errors_are_read_back_whatever_their_message_holds() {
    let messages = [
        "ProtocolError 'startMarkerNotFound': Expected request to start with 'CASP/'.",
        "ProtocolError 'endMarkerNotFound': Expected request to end with '/\\n'.",
        "DatabaseError 'keyNotFound': The key 'a/b' doesn't exist.",
        "ParserError 'unknownQueryOperation': Query 'FETCH \"k' not recognized.",
        " spaces at both ends ",
        "",
        "/",
    ];
    for message in messages {
        assert_eq!(
            parse_response(&QueryResponse::error(message)),
            Ok(ParsedResponse {
                status: ResponseStatus::ERROR,
                command: None,
                value: Some(message.to_string())
            }),
            "{:?}",
            message
        );
    }
}

#[test]
fn frames_with_the_type_first_are_read_part_by_part_where_they_are_not_exact() {
    assert_eq!(
        parse_response("CASP/OK/INT/GETX/ 7 /\n"),
        Ok(ParsedResponse {
            status: ResponseStatus::OK,
            command: Some("GETX".to_string()),
            value: Some("7".to_string())
        })
    );
    assert_eq!(
        parse_response("CASP/OK/INT/GET/\n").unwrap_err(),
        r#"Failed to parse response: Expected OK responses to consist of four parts (CASP + OK + <command> + \n)."#
    );
    assert_eq!(
        parse_response("CASP/OK/WOOL/GET/7/\n").unwrap_err(),
        r#"Failed to parse response: Expected OK responses to consist of four parts (CASP + OK + <command> + \n)."#
    );
}
