//! The operations that only superusers reach.

pub mod canister;
pub mod file;
pub mod moderation;
