//! Sessions kept in encrypted cookies, and a cache of compiled page templates.
pub mod store;
pub mod json;
pub mod secret;
pub mod middlewares;
pub mod middleware;
pub mod templates;
pub mod handler;
pub mod json_text;
