//! The commands of the program, as they come from the command line.
use vstd::prelude::*;

verus! {

/// What the program is asked to do.
#[derive(Debug, Clone, PartialEq, Eq)]
pub enum Commands {
    /// Make a new vault `name` in the directory `dir`.
    Create { name: String, dir: String },
    /// Open the vault in the file `file_path`.
    Open { file_path: String },
    /// Show the configuration.
    Config,
}

} // verus!
