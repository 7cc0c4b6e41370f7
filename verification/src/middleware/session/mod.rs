//! A session of one request, with its values as JSON strings.
pub mod internal;
