//! Middleware that keeps each visitor's session in an encrypted cookie.
pub mod session;
