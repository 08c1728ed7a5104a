//! Local document store for a desktop panel application: one JSON file,
//! lazily seeded with a default skeleton, read and overwritten verbatim,
//! and exported either as the raw JSON text or as a CSV projection of its
//! contact records.

pub mod export;
pub mod parse;
pub mod store;
pub mod text;
pub mod value;
