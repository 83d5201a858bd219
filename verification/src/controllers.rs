//! The operations that callers reach.

pub mod admin;
pub mod file;
pub mod http;
