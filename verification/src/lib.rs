//! A small line-oriented text search: given a pattern and some text, find the
//! lines of the text that contain the pattern, optionally ignoring case.
//!
//! The library decides everything: how command-line tokens become a
//! [`Conf`], which inputs a run reads and in which order, which lines match,
//! and what is printed. Reading files and standard input, and printing, are left
//! to the caller.
//!
//! - [`text`]: texts as sequences of characters, their lines, and what is
//!   taken on trust from the standard library's string functions.
//! - [`search`]: the matching lines of a text, and what holds of them.
//! - [`args`]: how the tokens of a command line are read as arguments.
//! - [`conf`]: the configuration that the arguments resolve to.
//! - [`run`]: a run over the inputs, one read at a time.

pub mod args;
pub mod conf;
pub mod run;
pub mod search;
pub mod text;

pub use crate::conf::Conf;
pub use crate::conf::Error;
pub use crate::run::run;
pub use crate::search::search;
pub use crate::search::search_ignore_case;
