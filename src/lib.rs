//! The protocol engine of a Gopher client: request locators, directory entries,
//! response framing, and the state machines that turn what is read from a
//! connection into entries or text lines.
use vstd::prelude::*;

pub mod chars;
pub mod entry;
pub mod fetch;
pub mod framer;
pub mod locator;

pub use entry::{Entry, ParseError};
pub use fetch::{directory_entries, request_line, DirectoryReader, FetchError, LineFramer, ReadEvent, TextReader};
pub use framer::{response_lines, text_response_lines, unescape_line};
pub use locator::{Locator, ValidationError};

verus! {

} // verus!
