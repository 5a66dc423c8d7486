//! jots: a small note-taking library.
//!
//! Notes are plain text records: the first line is ignored, the second line
//! carries the variant keyword and the tags, and the remaining lines are the
//! body. This crate holds the verified core: the note parser, the formatter,
//! and tag search over a collection of notes.

pub mod text;

pub mod jot;

pub mod collection;

pub mod config;
