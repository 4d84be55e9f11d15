//! The configuration that the server starts with: where each setting comes
//! from and what makes it valid.

pub mod arguments;
pub mod validators;
