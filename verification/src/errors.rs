//! The errors that reach a client, one module for each stage that raises them.
//! Each error renders to the text that is put on the wire.

pub mod authentication_errors;
pub mod database_errors;
pub mod parser_errors;
pub mod protocol_errors;
