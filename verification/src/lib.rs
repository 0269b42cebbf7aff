//! Line-oriented pattern search over an in-memory wordlist.
//!
//! A [`scanner::GreppableWordlist`] owns the bytes of one wordlist and a
//! read position. Each search compiles a regular expression, walks the
//! remaining bytes line by line, and returns the matching lines in file
//! order. The line splitting and the search loop are verified; the regular
//! expression engine is called through a small trusted boundary.

pub mod lines;
pub mod matcher;
pub mod scanner;
pub mod laws;

pub use scanner::GrepError;
pub use scanner::GreppableWordlist;
