pub mod config;
pub mod file_format;
pub mod text;
pub mod wrap;
