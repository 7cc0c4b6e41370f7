//! Sessions whose values are JSON texts kept as strings.
pub mod session;
