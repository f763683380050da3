//! Conversion library for structured-data documents: JSON, YAML, TOML and
//! CSV, over a single canonical value model.
#![verifier::loop_isolation(false)]

pub mod app;
pub mod error;
pub mod strutil;
pub mod format;
pub mod formats;
pub mod laws;
pub mod outside;
pub mod value;
pub mod web;

pub use error::FormatError;
pub use format::FileFormat;
