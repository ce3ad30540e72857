//! Formatted scanning of text and command line arguments, with diagnostics
//! that point into the original argument.

pub mod utf8;
pub mod text;
pub mod err;
pub mod reader;
pub mod integer;
pub mod fmt;
pub mod decode;
pub mod parsef;
pub mod render;
pub mod from_arg;
pub mod parsers;
pub mod cursor;
pub mod iter;
pub mod check;
