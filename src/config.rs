//! The search toggles chosen on the command line.
use vstd::prelude::*;

verus! {

/// Output and traversal toggles of one search.
#[derive(Debug, Clone, Copy, PartialEq, Eq, Structural)]
pub struct Config {
    /// Prefix each match with its line number.
    pub lines: bool,
    /// Search the files directly inside a directory.
    pub recursive: bool,
    /// Search every file below a directory, at any depth.
    pub full_recursive: bool,
    /// Print only the number of matching lines.
    pub count: bool,
}

impl Config {
    /// All toggles off.
    pub fn new() -> (r: Config)
        ensures
            r == (Config { lines: false, recursive: false, full_recursive: false, count: false }),
    {
        Config { lines: false, recursive: false, full_recursive: false, count: false }
    }
}

} // verus!
