//! Terminal-control utility: ANSI escape sequences for 24-bit colour
//! and for cursor movement, scrolling and clearing, plus a parser for
//! the terminal's cursor-position report.
//!
//! Every function here is pure: it builds (or parses) the exact byte
//! sequence and hands it to the caller as a `String`. Writing the
//! sequences to a terminal, and reading its reply, is left to the
//! embedding application.

pub mod ansi;
pub mod colours;
pub mod cursor;
pub mod decimal;
