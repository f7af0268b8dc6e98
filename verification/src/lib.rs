//! A persistent key/value storage engine built on an append-only log.
//!
//! The library holds the engine's rules: the record format, the key
//! directory, the writer's rollover, the bounded reader cache and the
//! recovery scan. It performs no file access itself; a host hands it
//! bytes and offsets and carries out the actions it decides on.

pub mod api;
pub mod cli;
pub mod storage;
pub mod util;
