//! The command line's arguments.

pub mod command;

use crate::api::ApiServer;
use crate::cli::command::runner::{CommandRunner, RunError};
use crate::cli::command::Commands;
use crate::storage::KeyValueStorage;
use vstd::prelude::*;

verus! {

/// The arguments of one invocation.
#[derive(Clone, Debug, PartialEq, Eq)]
pub struct Cli {
    /// The data directory; the default is `.kvstore/data` under the
    /// current directory.
    pub data_dir: Option<String>,
    pub command: Option<Commands>,
}

/// Runs the command of one invocation against a store: what
/// `CommandRunner::run` does on a runner made of the store and the server.
/// What it hands back on success is what the host writes to standard
/// output.
pub fn run<S: KeyValueStorage, T: ApiServer>(cli: Cli, storage: S, api_server: T) -> (output:
    Result<Option<Vec<u8>>, RunError<S::Error>>)
    ensures
        exists|after: CommandRunner<S, T>| #[trigger]
            (CommandRunner { storage, api_server }).ran(cli.command, after, output),
{
    let mut runner = CommandRunner::new(storage, api_server);
    let ghost before = runner;
    let output = runner.run(&cli.command);
    assert(before.ran(cli.command, runner, output));
    output
}

} // verus!
