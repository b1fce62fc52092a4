//! Parsing and querying of freedesktop-style key files, and the typed
//! desktop entry that is read out of one.

pub mod bytes;
pub mod desktop_entry;
pub mod error;
pub mod grammar;
pub mod key_file;
pub mod locale;
pub mod model;
mod reader;
pub mod scan;
mod table;
pub mod text;
