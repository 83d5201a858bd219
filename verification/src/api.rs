pub mod canister;
pub mod file;
