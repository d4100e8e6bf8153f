//! Interpreter for a game client's on-disk configuration: a duplicate-key
//! tolerant nested key/value document format, the library-folder and
//! manifest files written in it, and the edits made to a user's settings.

pub mod text;
pub mod vdf;
pub mod path;
pub mod lines;
pub mod manifest;
pub mod library;
pub mod download;
pub mod collections;
pub mod settings;
pub mod compat;
pub mod launch;
pub mod roundtrip;
pub mod catalog;
pub mod store;
pub mod account;
pub mod betas;
