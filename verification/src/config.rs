//! The tool's settings: the directory the note files live in.
//!
//! The settings are kept in a small key-value file beside the program; the
//! surrounding binary reads and writes that file and hands the value here.
//! A fresh configuration holds an empty directory path, which means the
//! directory is not configured yet and must be asked for.

use vstd::prelude::*;

verus! {

/// The one setting the tool has: where the note files live.
pub struct Config {
    pub directory: String,
}

impl Default for Config {
    /// A fresh configuration: no directory chosen yet.
    fn default() -> (r: Self)
        ensures
            r.directory@ == Seq::<char>::empty(),
    {
        Config { directory: String::new() }
    }
}

impl Config {
    /// Whether a directory has been chosen: an empty path means none has.
    pub fn is_configured(&self) -> (r: bool)
        ensures
            r == (self.directory@.len() != 0),
    {
        self.directory.as_str().unicode_len() != 0
    }
}

} // verus!
