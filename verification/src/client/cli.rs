//! What the user typed: a command of the client itself or a request for the server.

use crate::parser::{behind, strip_prefix};
use crate::text::{same_text, trim_text, trim_whitespace};
use vstd::prelude::*;
use vstd::string::*;

verus! {

/// Where the client connects to, and the password it authenticates with.
#[derive(Debug, PartialEq, Eq)]
pub struct CliArgs {
    pub host: String,
    pub port: String,
    pub password: Option<String>,
}

/// What a line of input asks for.
#[derive(Debug, PartialEq, Eq)]
pub enum CliCommand {
    /// A request to send to the server, as it was typed.
    DatabaseRequest(String),
    /// Leave the client.
    Exit,
    /// Show the help text.
    Help,
    /// A command of the client that it does not know; the command.
    Unknown(String),
}

/// A line of input over plain text.
pub enum Command {
    DatabaseRequest(Seq<char>),
    Exit,
    Help,
    Unknown(Seq<char>),
}

impl View for CliCommand {
    type V = Command;

    open spec fn view(&self) -> Command {
        match self {
            CliCommand::DatabaseRequest(request) => Command::DatabaseRequest(request@),
            CliCommand::Exit => Command::Exit,
            CliCommand::Help => Command::Help,
            CliCommand::Unknown(command) => Command::Unknown(command@),
        }
    }
}

/// What a line of input asks for: behind a `$` stands a command of the
/// client, trimmed of white space; anything else is a request.
pub open spec fn command_of(input: Seq<char>) -> Command {
    if "$"@.is_prefix_of(input) {
        let command = trim_whitespace(behind(input, "$"@));
        if command == "exit"@ {
            Command::Exit
        } else if command == "help"@ {
            Command::Help
        } else {
            Command::Unknown(command)
        }
    } else {
        Command::DatabaseRequest(input)
    }
}

/// The frame that carries a request: the input, trimmed of white space,
/// between the markers of the protocol.
pub open spec fn request_frame(input: Seq<char>) -> Seq<char> {
    "CASP/"@ + trim_whitespace(input) + "/"@ + "\n"@
}

/// Tells a command of the client from a request for the server.
pub fn get_cli_command(input: &str) -> (command: CliCommand)
    ensures
        command@ == command_of(input@),
{
    match strip_prefix(input, "$") {
        Some(rest) => {
            let command = trim_text(rest);
            if same_text(command, "exit") {
                CliCommand::Exit
            } else if same_text(command, "help") {
                CliCommand::Help
            } else {
                CliCommand::Unknown(String::from_str(command))
            }
        },
        None => CliCommand::DatabaseRequest(String::from_str(input)),
    }
}

/// Wraps a request in the frame of the protocol.
pub fn build_request(input: &str) -> (frame: String)
    ensures
        frame@ == request_frame(input@),
{
    let mut frame = String::from_str("CASP/");
    frame.append(trim_text(input));
    frame.append("/");
    frame.append("\n");
    frame
}

} // verus!
