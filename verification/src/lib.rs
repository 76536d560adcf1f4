//! A filter for the output of the OCaml compiler, its interactive toplevel
//! and its build tools. It writes what they write, and makes it easier to
//! read on the way: diagnostics are set apart and shown on the source rows
//! they point at, with the columns underlined; types and keywords are
//! coloured; the prompt of the toplevel is passed on the moment it comes.
//!
//! The library does no input and no output. [`charpeek::Charpeek`] is fed
//! the bytes of the stream, [`driver::Transcript`] reads lines from it and
//! appends what is to be written to a list, and says when it needs more
//! input or the contents of a source file. The program around it reads,
//! writes and runs the loop.

pub mod charpeek;
pub mod classify;
pub mod driver;
pub mod files;
pub mod pattern;
pub mod snippet;
pub mod style;
pub mod text;
