//! The command line of one action.

use vstd::prelude::*;

verus! {

/// A process to run: its argument vector, the environment variables it is
/// given on top of the base environment, and its working directory.
#[derive(Debug, Clone, PartialEq, Eq)]
pub struct Command {
    pub argv: Vec<String>,
    pub env: Vec<(String, String)>,
    pub cwd: String,
}

} // verus!
