//! The HTTP frontend's answers.

pub mod app;

use crate::storage::error::AsStdError;
use crate::storage::KeyValueStorage;
use vstd::prelude::*;

verus! {

/// A server that offers a store over the network.
pub trait ApiServer {
    type Storage: KeyValueStorage + Sync;

    /// Whether `run(port)` on this server may end with `done`. Each server
    /// says for itself what its `run` does; one that says nothing allows
    /// every end.
    open spec fn may_run(&self, port: u16, done: Result<(), AsStdError>) -> bool {
        true
    }

    fn run(&self, port: u16) -> (done: Result<(), AsStdError>)
        ensures
            self.may_run(port, done),
    ;
}

} // verus!
