//! The client's side of the protocol: building request frames, telling the
//! client's own commands from requests, and reading response frames.

pub mod cli;
pub mod parser;
pub mod round_trip;
