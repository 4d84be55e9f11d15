//! The settings of the server, each from a command-line flag, from the
//! environment or from a default, in that order.

use crate::cli::validators::{
    database_type_of, is_strong, parse_database_type, strong_password, validate_password,
};
use crate::schemas::DatabaseType;
use vstd::prelude::*;
use vstd::string::*;

verus! {

/// The settings as they were given, on the command line or in the environment.
#[derive(Debug, PartialEq, Eq)]
pub struct CliArgs {
    /// The type of value that the store holds.
    pub database_type: Option<String>,
    /// The password that clients authenticate with.
    pub password: Option<String>,
    /// The address to listen on.
    pub host: Option<String>,
    /// The port to listen on.
    pub port: Option<String>,
}

/// The settings that the server starts with.
#[derive(Debug, PartialEq, Eq)]
pub struct CachewDbArgs {
    pub database_type: DatabaseType,
    pub password: String,
    pub host: String,
    pub port: String,
}

/// Why the server cannot start with the settings given.
#[derive(Debug, PartialEq, Eq)]
pub enum ArgumentError {
    /// A setting without a default was given neither as a flag nor in the
    /// environment; the name of its environment variable.
    Missing(String),
    /// The name given stands for no type of store.
    InvalidDatabaseType(String),
    /// The password is not strong enough.
    WeakPassword,
}

/// A startup error over plain text.
pub enum ArgumentFault {
    Missing(Seq<char>),
    InvalidDatabaseType(Seq<char>),
    WeakPassword,
}

impl View for ArgumentError {
    type V = ArgumentFault;

    open spec fn view(&self) -> ArgumentFault {
        match self {
            ArgumentError::Missing(variable) => ArgumentFault::Missing(variable@),
            ArgumentError::InvalidDatabaseType(name) => ArgumentFault::InvalidDatabaseType(name@),
            ArgumentError::WeakPassword => ArgumentFault::WeakPassword,
        }
    }
}

impl ArgumentFault {
    /// The text that reports the error.
    pub open spec fn message(self) -> Seq<char> {
        match self {
            ArgumentFault::Missing(variable) => "Environment variable '"@ + variable
                + "' is not set and no according flag was provided."@,
            ArgumentFault::InvalidDatabaseType(name) => "Invalid database type '"@ + name
                + "'. Choose one of: STR, INT, FLOAT, BOOL or JSON."@,
            ArgumentFault::WeakPassword => "Password too weak."@,
        }
    }
}

impl ArgumentError {
    /// Renders the error as it is reported.
    pub fn to_string(&self) -> (s: String)
        ensures
            s@ == self@.message(),
    {
        match self {
            ArgumentError::Missing(variable) => {
                let mut s = String::from_str("Environment variable '");
                s.append(variable.as_str());
                s.append("' is not set and no according flag was provided.");
                s
            },
            ArgumentError::InvalidDatabaseType(name) => {
                let mut s = String::from_str("Invalid database type '");
                s.append(name.as_str());
                s.append("'. Choose one of: STR, INT, FLOAT, BOOL or JSON.");
                s
            },
            ArgumentError::WeakPassword => String::from_str("Password too weak."),
        }
    }
}

/// The value of a setting: the flag if it was given, else the environment,
/// else the default.
pub open spec fn chosen(
    flag: Option<Seq<char>>,
    environment: Option<Seq<char>>,
    default: Option<Seq<char>>,
) -> Option<Seq<char>> {
    if flag is Some {
        flag
    } else if environment is Some {
        environment
    } else {
        default
    }
}

/// The text that an optional string holds.
pub open spec fn text_of(value: Option<String>) -> Option<Seq<char>> {
    match value {
        Some(text) => Some(text@),
        None => None,
    }
}

/// The settings that the server starts with, or why it cannot start. The type
/// of the store is looked at first, then the password.
pub open spec fn settings(flags: CliArgs, environment: CliArgs) -> Result<
    (DatabaseType, Seq<char>, Seq<char>, Seq<char>),
    ArgumentFault,
> {
    let name = chosen(text_of(flags.database_type), text_of(environment.database_type), None);
    let password = chosen(text_of(flags.password), text_of(environment.password), None);
    let host = chosen(text_of(flags.host), text_of(environment.host), Some("127.0.0.1"@));
    let port = chosen(text_of(flags.port), text_of(environment.port), Some("8080"@));
    if name is None {
        Err(ArgumentFault::Missing("CACHEW_DB_TYPE"@))
    } else if database_type_of(name->0) is None {
        Err(ArgumentFault::InvalidDatabaseType(name->0))
    } else if password is None {
        Err(ArgumentFault::Missing("CACHEW_DB_PASSWORD"@))
    } else if !is_strong(password->0) {
        Err(ArgumentFault::WeakPassword)
    } else {
        Ok((database_type_of(name->0)->0, password->0, host->0, port->0))
    }
}

/// Picks the value of a setting: the flag if it was given, else the
/// environment, else the default.
pub fn get_argument(
    cli_argument: Option<String>,
    env_argument: Option<String>,
    default: Option<String>,
) -> (value: Option<String>)
    ensures
        text_of(value) == chosen(text_of(cli_argument), text_of(env_argument), text_of(default)),
{
    match cli_argument {
        Some(found) => Some(found),
        None => match env_argument {
            Some(found) => Some(found),
            None => default,
        },
    }
}

/// Makes the settings that the server starts with from the flags and the
/// environment, with `127.0.0.1` and `8080` where no host or port is given.
pub fn get_cachew_db_args(flags: CliArgs, environment: CliArgs) -> (result: Result<
    CachewDbArgs,
    ArgumentError,
>)
    ensures
        match settings(flags, environment) {
            Ok(expected) => result matches Ok(found) && found.database_type == expected.0
                && found.password@ == expected.1 && found.host@ == expected.2 && found.port@
                == expected.3,
            Err(fault) => result matches Err(error) && error@ == fault,
        },
{
    let name = match get_argument(flags.database_type, environment.database_type, None) {
        Some(found) => found,
        None => return Err(ArgumentError::Missing(String::from_str("CACHEW_DB_TYPE"))),
    };
    let database_type = match parse_database_type(name.as_str()) {
        Some(found) => found,
        None => return Err(ArgumentError::InvalidDatabaseType(name)),
    };
    let password = match get_argument(flags.password, environment.password, None) {
        Some(found) => found,
        None => return Err(ArgumentError::Missing(String::from_str("CACHEW_DB_PASSWORD"))),
    };
    if !strong_password(password.as_str()) {
        return Err(ArgumentError::WeakPassword);
    }
    let password = validate_password(password);
    let host = match get_argument(
        flags.host,
        environment.host,
        Some(String::from_str("127.0.0.1")),
    ) {
        Some(found) => found,
        None => String::from_str("127.0.0.1"),
    };
    let port = match get_argument(flags.port, environment.port, Some(String::from_str("8080"))) {
        Some(found) => found,
        None => String::from_str("8080"),
    };
    Ok(CachewDbArgs { database_type, password, host, port })
}

} // verus!
