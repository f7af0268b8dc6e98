//! The storage engine and the interface it offers to its hosts.

pub mod codec;
pub mod error;
pub mod file;
pub mod keydir;
pub mod laws;
pub mod logdir;
pub mod names;
pub mod recovery;
pub mod writer;

use crate::storage::error::{kind_name, AsStdError};
use vstd::prelude::*;

verus! {

/// An error that can say in words what went wrong.
pub trait ErrorMessage {
    fn message(&self) -> String;
}

impl ErrorMessage for AsStdError {
    /// The kind's name, a colon and the detail.
    fn message(&self) -> (text: String)
        ensures
            text@ == kind_name(self.kind) + ": "@ + self.detail@,
    {
        AsStdError::message(self)
    }
}

/// A key/value store as the command line and the HTTP frontend see it.
/// Keys and values are byte strings. A `get` of a key that is not there
/// and a `del` of one are no errors: they yield `None` and `false`.
pub trait KeyValueStorage: Clone + Send + 'static {
    type Error: ErrorMessage + Send + Sync;

    /// Whether `set(key, value)` on this store may answer `stored` and
    /// leave the store as `after`. Each store says for itself what its `set`
    /// does; one that says nothing allows every answer.
    open spec fn may_set(
        &self,
        key: Seq<u8>,
        value: Seq<u8>,
        after: &Self,
        stored: Result<(), Self::Error>,
    ) -> bool {
        true
    }

    /// Whether `get(key)` on this store may answer `found` and leave the
    /// store as `after`. Each store says for itself what its `get` does; one
    /// that says nothing allows every answer.
    open spec fn may_get(
        &self,
        key: Seq<u8>,
        after: &Self,
        found: Result<Option<Vec<u8>>, Self::Error>,
    ) -> bool {
        true
    }

    /// Whether `del(key)` on this store may answer `deleted` and leave the
    /// store as `after`. Each store says for itself what its `del` does; one
    /// that says nothing allows every answer.
    open spec fn may_del(
        &self,
        key: Seq<u8>,
        after: &Self,
        deleted: Result<bool, Self::Error>,
    ) -> bool {
        true
    }

    fn set(&mut self, key: Vec<u8>, value: Vec<u8>) -> (stored: Result<(), Self::Error>)
        ensures
            old(self).may_set(key@, value@, final(self), stored),
    ;

    fn get(&mut self, key: Vec<u8>) -> (found: Result<Option<Vec<u8>>, Self::Error>)
        ensures
            old(self).may_get(key@, final(self), found),
    ;

    fn del(&mut self, key: Vec<u8>) -> (deleted: Result<bool, Self::Error>)
        ensures
            old(self).may_del(key@, final(self), deleted),
    ;
}

} // verus!
