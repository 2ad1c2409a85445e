//! Whole files, read and written in one call: as text, as bytes, or line by
//! line.
//!
//! The file system itself stays with the caller. A call that writes returns a
//! [`Writer`], which says step by step what is to be done to the file and is
//! told how each step went. A call that reads takes what opening and reading
//! the file gave. [`Lines`] hands out the lines of a file one by one and asks
//! for the file only when the first of them is wanted.

pub mod error;
pub mod file;
pub mod reader;
pub mod record;
pub mod text;
pub mod writer;

pub use error::{ErrorKind, IoError};
pub use reader::{
    iterate_all_lines, read_all_lines, read_all_to_string, LineAction, LineEvent, Lines,
};
pub use writer::{
    append_all_bytes, append_all_lines, append_all_text, write_all_bytes, write_all_lines,
    write_all_text, WriteAction, WriteMode, Writer,
};
