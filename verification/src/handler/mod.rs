//! What the pages do to the visitor's session.
pub mod foo;
pub mod index;
