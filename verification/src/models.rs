pub mod file;
pub mod record;
