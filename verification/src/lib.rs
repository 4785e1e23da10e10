//! A parser, in-memory model, and format-preserving serializer for the
//! KeyFile text format used by freedesktop `.desktop` files and other
//! INI-like configuration files.
//!
//! Parsing a string into a [`KeyFile`], making no modifications, and
//! rendering it back yields the original string, including comments, blank
//! lines, and the whitespace around each `=` separator.

pub mod chars;
pub mod keyfile;
pub mod lines;
pub mod ordmap;
pub mod parse;
pub mod types;

pub use crate::keyfile::{Group, KeyFile, KeyFileError, KeyValuePair};
