use cachew::cli::arguments::{get_argument, get_cachew_db_args, ArgumentError, CachewDbArgs, CliArgs};
use cachew::cli::validators::{
    checked_password, parse_database_type, strong_password, validate_database_type,
    validate_password,
};
use cachew::schemas::DatabaseType;

fn none() -> CliArgs {
    CliArgs { database_type: None, password: None, host: None, port: None }
}

#[test]
fn test_validate_database_type() {
    let db_types: &[&str] = &["STR", "INT", "FLOAT", "BOOL", "JSON"];
    let expected_db_types: &[DatabaseType] = &[
        DatabaseType::Str,
        DatabaseType::Int,
        DatabaseType::Float,
        DatabaseType::Bool,
        DatabaseType::Json,
    ];

    for (idx, db_type) in db_types.iter().enumerate() {
        assert_eq!(validate_database_type(db_type.to_string()), expected_db_types[idx]);
    }
}

#[test]
fn validators_test_validate_database_type() {
    let db_types: &[&str] = &["STR", "INT", "FLOAT", "BOOL", "JSON"];
    let expected_db_types: &[DatabaseType] = &[
        DatabaseType::Str,
        DatabaseType::Int,
        DatabaseType::Float,
        DatabaseType::Bool,
        DatabaseType::Json,
    ];

    for (idx, db_type) in db_types.iter().enumerate() {
        assert_eq!(validate_database_type(db_type.to_string()), expected_db_types[idx]);
    }
}

#[test]
fn test_validate_correct_password() {
    assert_eq!(validate_password("Ottffss8%".to_string()), "Ottffss8%".to_string());
}

#[test]
fn unknown_type_names_stand_for_no_type() {
    assert_eq!(parse_database_type("WOOL"), None);
    assert_eq!(parse_database_type("str"), None);
    assert_eq!(parse_database_type(""), None);
    assert_eq!(parse_database_type("JSON"), Some(DatabaseType::Json));
    for database_type in [
        DatabaseType::Str,
        DatabaseType::Int,
        DatabaseType::Float,
        DatabaseType::Bool,
        DatabaseType::Json,
    ] {
        assert_eq!(parse_database_type(&database_type.to_string()), Some(database_type));
    }
}

#[test]
fn weak_passwords_are_told_from_strong_ones() {
    assert!(strong_password("Ottffss8%"));
    assert!(!strong_password("p"));
    assert!(!strong_password("Ottff8%"));
    assert!(!strong_password("ottffss8%"));
    assert!(!strong_password("OTTFFSS8%"));
    assert!(!strong_password("Ottffsss%"));
    assert!(!strong_password("Ottffss88"));
    assert!(strong_password("Äbcdefg1 "));
    assert_eq!(checked_password("Ottffss8%".to_string()), Some("Ottffss8%".to_string()));
    assert_eq!(checked_password("password".to_string()), None);
}

#[test]
fn test_get_argument() {
    // the type of the store by flag and by environment
    let database_type_cli = get_argument(Some("STR".to_string()), None, None);
    assert_eq!(database_type_cli.map(validate_database_type), Some(DatabaseType::Str));

    let database_type_env = get_argument(None, Some("INT".to_string()), None);
    assert_eq!(database_type_env.map(validate_database_type), Some(DatabaseType::Int));

    // the password by flag and by environment
    let password_cli = get_argument(Some("Valid%Password123".to_string()), None, None);
    assert_eq!(password_cli.and_then(checked_password), Some("Valid%Password123".to_string()));

    let password_env = get_argument(None, Some("Valid%Password123".to_string()), None);
    assert_eq!(password_env.and_then(checked_password), Some("Valid%Password123".to_string()));

    // the host by flag and by environment
    let host_cli =
        get_argument(Some("127.0.0.1".to_string()), None, Some("127.0.0.1".to_string()));
    assert_eq!(host_cli, Some("127.0.0.1".to_string()));

    let host_env =
        get_argument(None, Some("127.0.0.1".to_string()), Some("127.0.0.1".to_string()));
    assert_eq!(host_env, Some("127.0.0.1".to_string()));

    // the port by flag and by environment
    let port_cli = get_argument(Some("5432".to_string()), None, Some("8080".to_string()));
    assert_eq!(port_cli, Some("5432".to_string()));

    let port_env = get_argument(None, Some("5432".to_string()), Some("8080".to_string()));
    assert_eq!(port_env, Some("5432".to_string()));

    // the flag comes before the environment
    let flag = get_argument(Some("STR".to_string()), Some("INT".to_string()), None);
    assert_eq!(flag, Some("STR".to_string()));
}

#[test]
fn test_get_default_host() {
    let host = get_argument(None, None, Some("0.0.0.0".to_string()));
    assert_eq!(host, Some("0.0.0.0".to_string()));
}

#[test]
fn test_get_default_port() {
    let port = get_argument(None, None, Some("8080".to_string()));
    assert_eq!(port, Some("8080".to_string()));
}

#[test]
fn settings_come_from_flags_then_environment_then_defaults() {
    let flags = CliArgs {
        database_type: Some("INT".to_string()),
        password: None,
        host: None,
        port: Some("9000".to_string()),
    };
    let environment = CliArgs {
        database_type: Some("STR".to_string()),
        password: Some("Ottffss8%".to_string()),
        host: None,
        port: Some("9001".to_string()),
    };
    assert_eq!(
        get_cachew_db_args(flags, environment),
        Ok(CachewDbArgs {
            database_type: DatabaseType::Int,
            password: "Ottffss8%".to_string(),
            host: "127.0.0.1".to_string(),
            port: "9000".to_string()
        })
    );
    let environment = CliArgs {
        database_type: Some("JSON".to_string()),
        password: Some("Ottffss8%".to_string()),
        host: Some("0.0.0.0".to_string()),
        port: None,
    };
    assert_eq!(
        get_cachew_db_args(none(), environment),
        Ok(CachewDbArgs {
            database_type: DatabaseType::Json,
            password: "Ottffss8%".to_string(),
            host: "0.0.0.0".to_string(),
            port: "8080".to_string()
        })
    );
}

#[test]
fn settings_that_cannot_start_a_server_are_refused() {
    let missing_type = get_cachew_db_args(none(), none()).unwrap_err();
    assert_eq!(missing_type, ArgumentError::Missing("CACHEW_DB_TYPE".to_string()));
    assert_eq!(
        missing_type.to_string(),
        "Environment variable 'CACHEW_DB_TYPE' is not set and no according flag was provided."
    );

    let mut flags = none();
    flags.database_type = Some("WOOL".to_string());
    let invalid = get_cachew_db_args(flags, none()).unwrap_err();
    assert_eq!(invalid, ArgumentError::InvalidDatabaseType("WOOL".to_string()));
    assert_eq!(
        invalid.to_string(),
        "Invalid database type 'WOOL'. Choose one of: STR, INT, FLOAT, BOOL or JSON."
    );

    let mut flags = none();
    flags.database_type = Some("STR".to_string());
    let missing_password = get_cachew_db_args(flags, none()).unwrap_err();
    assert_eq!(
        missing_password.to_string(),
        "Environment variable 'CACHEW_DB_PASSWORD' is not set and no according flag was provided."
    );

    let mut flags = none();
    flags.database_type = Some("STR".to_string());
    flags.password = Some("p".to_string());
    let weak = get_cachew_db_args(flags, none()).unwrap_err();
    assert_eq!(weak, ArgumentError::WeakPassword);
    assert_eq!(weak.to_string(), "Password too weak.");
}

#[test]
fn the_password_comes_from_the_flag_or_from_the_environment() {
    let by_flag = CliArgs {
        database_type: Some("STR".to_string()),
        password: Some("Valid%Password123".to_string()),
        host: None,
        port: None,
    };
    let other = CliArgs {
        database_type: None,
        password: Some("Ottffss8%".to_string()),
        host: None,
        port: None,
    };
    assert_eq!(
        get_cachew_db_args(by_flag, other).map(|settings| settings.password),
        Ok("Valid%Password123".to_string())
    );
    let by_environment = CliArgs {
        database_type: None,
        password: Some("Valid%Password123".to_string()),
        host: None,
        port: None,
    };
    let flags = CliArgs { database_type: Some("STR".to_string()), password: None, host: None, port: None };
    assert_eq!(
        get_cachew_db_args(flags, by_environment).map(|settings| settings.password),
        Ok("Valid%Password123".to_string())
    );
}
