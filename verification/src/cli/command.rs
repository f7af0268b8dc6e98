//! The commands of the command line.

pub mod runner;

use vstd::prelude::*;

verus! {

/// One command with its arguments as they were given.
#[derive(Clone, Debug, PartialEq, Eq)]
pub enum Commands {
    /// Binds a key to a value.
    Put { key: Option<String>, value: Option<String> },
    /// Writes a key's value to standard output.
    Get { key: Option<String> },
    /// Deletes a key.
    Del { key: Option<String> },
    /// Starts the HTTP frontend.
    Server { port: Option<u16> },
}

} // verus!
