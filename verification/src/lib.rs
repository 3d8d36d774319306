//! A verified parser for M3U playlists.
//!
//! The input text is read line by line; each line is classified as a blank
//! line, a directive (`#` followed by an upper-case name, with optional
//! `:`-prefixed parameters), a comment (any other `#` line), or a media
//! location. Blank lines and comments are discarded; directives and locations
//! are collected, in input order, as [`M3uLine`] records. Classification stops
//! at the first fragment that fits no line kind, and the unconsumed remainder
//! is returned alongside the records.

use vstd::prelude::*;

pub mod grammar;
pub mod laws;
pub mod parser;

pub use parser::parse;
pub use parser::M3uLine;

verus! {

/// Characters counted as horizontal whitespace, stripped at the start of a line.
pub open spec fn is_space_char(c: char) -> bool {
    c == ' ' || c == '\t'
}

/// Characters that take part in a line-ending sequence.
pub open spec fn is_break_char(c: char) -> bool {
    c == '\n' || c == '\r'
}

/// Characters a directive name may consist of: upper-case ASCII letters,
/// ASCII digits, and hyphens.
pub open spec fn is_name_char(c: char) -> bool {
    ('A' <= c && c <= 'Z') || ('0' <= c && c <= '9') || c == '-'
}

} // verus!
