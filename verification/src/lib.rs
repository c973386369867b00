//! Line filtering over text held in memory.
//!
//! Given a query and a body of text, the two entry points return the lines of
//! the text that hold the query: [`search`] compares characters exactly,
//! [`search_case_insensitive`] compares the lowercase forms of line and
//! query. Every returned line is a slice of the text that was passed in.
//!
//! - [`matcher`]: the two searches and what holds of them.
//! - [`lines`]: what the lines of a text are, and how the first is cut off.
//! - [`substring`]: whether one text stands in another.
//! - [`fold`]: the lowercase form of a text, taken from the standard library.
//! - [`selection`]: what it means to keep some items of a sequence in order.
//! - [`encoding`]: facts that tie the bytes of a string to its characters.
//! - [`config`]: what a command line asks for.
pub mod config;
pub mod encoding;
pub mod fold;
pub mod lines;
pub mod matcher;
pub mod selection;
pub mod substring;

pub use matcher::{search, search_case_insensitive};
