//! An in-memory, authenticated key/value server: the CASP wire protocol, the
//! typed ordered store behind it and the per-connection session rules.

pub mod cli;
pub mod client;
pub mod database;
pub mod entries;
pub mod envelope;
pub mod errors;
pub mod joining;
pub mod numbers;
pub mod parser;
pub mod pattern;
pub mod response;
pub mod schemas;
pub mod server;
pub mod state;
pub mod text;
