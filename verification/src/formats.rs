//! The per-format conversion functions and their shared helpers.

pub mod csv;
pub mod json;
pub mod toml;
pub mod utils;
pub mod yaml;
