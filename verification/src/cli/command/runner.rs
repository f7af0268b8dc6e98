//! Running one command against a store.

use crate::api::app::key_bytes;
use crate::api::ApiServer;
use crate::cli::command::Commands;
use crate::storage::error::AsStdError;
use crate::storage::KeyValueStorage;
use vstd::prelude::*;
use vstd::utf8::encode_utf8;

verus! {

/// An argument that a command needs and did not get.
#[derive(Clone, Copy, Debug, PartialEq, Eq, Structural)]
pub enum CliError {
    MissingKey,
    MissingValue,
    InvalidPort,
}

/// The text of an argument error.
pub open spec fn cli_error_text(e: CliError) -> Seq<char> {
    match e {
        CliError::MissingKey => "Missing key"@,
        CliError::MissingValue => "Missing value"@,
        CliError::InvalidPort => "Invalid port"@,
    }
}

impl CliError {
    /// What the error says to the user.
    pub fn message(&self) -> (text: String)
        ensures
            text@ == cli_error_text(*self),
    {
        match self {
            CliError::MissingKey => "Missing key".to_owned(),
            CliError::MissingValue => "Missing value".to_owned(),
            CliError::InvalidPort => "Invalid port".to_owned(),
        }
    }
}

/// Why a command failed: an argument was missing, the store failed, or the
/// server failed.
#[derive(Debug, PartialEq, Eq)]
pub enum RunError<E> {
    Cli(CliError),
    Storage(E),
    Server(AsStdError),
}

/// The argument error of a command, if it has one: `set` needs a value and
/// a key, and misses the value first; `get` and `del` need a key; `server`
/// needs a port. Where no command was given, nothing is missing.
pub open spec fn missing_argument(command: Option<Commands>) -> Option<CliError> {
    match command {
        Some(Commands::Put { key, value }) => if value is None {
            Some(CliError::MissingValue)
        } else if key is None {
            Some(CliError::MissingKey)
        } else {
            None
        },
        Some(Commands::Get { key }) => if key is None {
            Some(CliError::MissingKey)
        } else {
            None
        },
        Some(Commands::Del { key }) => if key is None {
            Some(CliError::MissingKey)
        } else {
            None
        },
        Some(Commands::Server { port }) => if port is None {
            Some(CliError::InvalidPort)
        } else {
            None
        },
        None => None,
    }
}

/// What `set` hands back for what the store answered: nothing, or the
/// store's error.
pub open spec fn outcome_of_set<E>(stored: Result<(), E>) -> Result<(), RunError<E>> {
    match stored {
        Ok(_) => Ok(()),
        Err(e) => Err(RunError::Storage(e)),
    }
}

/// What `get` hands back for what the store answered: the value that was
/// found, nothing on a miss, or the store's error.
pub open spec fn outcome_of_get<E>(found: Result<Option<Vec<u8>>, E>) -> Result<
    Option<Vec<u8>>,
    RunError<E>,
> {
    match found {
        Ok(value) => Ok(value),
        Err(e) => Err(RunError::Storage(e)),
    }
}

/// What `del` hands back for what the store answered: nothing, whether
/// the key was there or not, or the store's error.
pub open spec fn outcome_of_del<E>(deleted: Result<bool, E>) -> Result<(), RunError<E>> {
    match deleted {
        Ok(_) => Ok(()),
        Err(e) => Err(RunError::Storage(e)),
    }
}

/// What `server` hands back for how the server ended: nothing, or the
/// server's error.
pub open spec fn outcome_of_server<E>(done: Result<(), AsStdError>) -> Result<(), RunError<E>> {
    match done {
        Ok(_) => Ok(()),
        Err(e) => Err(RunError::Server(e)),
    }
}

/// The output of a command that prints nothing.
pub open spec fn silent<E>(outcome: Result<(), RunError<E>>) -> Result<
    Option<Vec<u8>>,
    RunError<E>,
> {
    match outcome {
        Ok(_) => Ok(None),
        Err(e) => Err(e),
    }
}

/// Runs commands against a store, and the server on request.
pub struct CommandRunner<S: KeyValueStorage, T: ApiServer> {
    pub storage: S,
    pub api_server: T,
}

impl<S: KeyValueStorage, T: ApiServer> CommandRunner<S, T> {
    /// Whether running `command` on this runner may hand back `output` and
    /// leave the runner as `after`. A command that misses an argument fails
    /// with the argument's error and reaches neither the store nor the
    /// server. Any other command makes one call: `set`, `get` or `del` on
    /// the store, with the bytes of the texts given, or `run` on the
    /// server; the output is the value that `get` found and nothing for
    /// every other command, or the error of the call.
    pub open spec fn ran(
        self,
        command: Option<Commands>,
        after: Self,
        output: Result<Option<Vec<u8>>, RunError<S::Error>>,
    ) -> bool {
        &&& after.api_server == self.api_server
        &&& match missing_argument(command) {
            Some(e) => output == Err::<Option<Vec<u8>>, RunError<S::Error>>(RunError::Cli(e))
                && after.storage == self.storage,
            None => match command {
                None => output == Ok::<Option<Vec<u8>>, RunError<S::Error>>(None) && after.storage
                    == self.storage,
                Some(Commands::Put { key, value }) => exists|stored: Result<(), S::Error>| #[trigger]
                    self.storage.may_set(
                        encode_utf8((key->0)@),
                        encode_utf8((value->0)@),
                        &after.storage,
                        stored,
                    ) && output == silent(outcome_of_set(stored)),
                Some(Commands::Get { key }) => exists|found: Result<Option<Vec<u8>>, S::Error>| #[trigger]
                    self.storage.may_get(encode_utf8((key->0)@), &after.storage, found) && output
                        == outcome_of_get(found),
                Some(Commands::Del { key }) => exists|deleted: Result<bool, S::Error>| #[trigger]
                    self.storage.may_del(encode_utf8((key->0)@), &after.storage, deleted)
                        && output == silent(outcome_of_del(deleted)),
                Some(Commands::Server { port }) => after.storage == self.storage && exists|
                    done: Result<(), AsStdError>,
                | #[trigger]
                    self.api_server.may_run(port->0, done) && output == silent(
                        outcome_of_server::<S::Error>(done),
                    ),
            },
        }
    }

    pub fn new(storage: S, api_server: T) -> (runner: Self)
        ensures
            runner.storage == storage,
            runner.api_server == api_server,
    {
        Self { storage, api_server }
    }

    /// Runs one command. What it hands back on success is what the host
    /// writes to standard output: the value that `get` found, and nothing
    /// for every other command. A command that misses an argument fails
    /// with the argument's error and reaches neither the store nor the
    /// server.
    pub fn run(&mut self, command: &Option<Commands>) -> (output: Result<
        Option<Vec<u8>>,
        RunError<S::Error>,
    >)
        ensures
            old(self).ran(*command, *final(self), output),
    {
        let ghost before = *self;
        match command {
            Some(Commands::Put { key, value }) => {
                let outcome = set_key(&mut self.storage, key, value);
                let ghost handed = outcome;
                let output = match outcome {
                    Ok(()) => Ok(None),
                    Err(e) => Err(e),
                };
                proof {
                    if value is Some && key is Some {
                        let stored = choose|stored: Result<(), S::Error>| #[trigger]
                            before.storage.may_set(
                                encode_utf8((key->0)@),
                                encode_utf8((value->0)@),
                                &self.storage,
                                stored,
                            ) && handed == outcome_of_set(stored);
                        assert(before.storage.may_set(
                            encode_utf8((key->0)@),
                            encode_utf8((value->0)@),
                            &self.storage,
                            stored,
                        ) && output == silent(outcome_of_set(stored)));
                    }
                }
                output
            },
            Some(Commands::Get { key }) => {
                let output = get_key(&mut self.storage, key);
                proof {
                    if key is Some {
                        let found = choose|found: Result<Option<Vec<u8>>, S::Error>| #[trigger]
                            before.storage.may_get(encode_utf8((key->0)@), &self.storage, found)
                                && output == outcome_of_get(found);
                        assert(before.storage.may_get(
                            encode_utf8((key->0)@),
                            &self.storage,
                            found,
                        ) && output == outcome_of_get(found));
                    }
                }
                output
            },
            Some(Commands::Del { key }) => {
                let outcome = del_key(&mut self.storage, key);
                let ghost handed = outcome;
                let output = match outcome {
                    Ok(()) => Ok(None),
                    Err(e) => Err(e),
                };
                proof {
                    if key is Some {
                        let deleted = choose|deleted: Result<bool, S::Error>| #[trigger]
                            before.storage.may_del(encode_utf8((key->0)@), &self.storage, deleted)
                                && handed == outcome_of_del(deleted);
                        assert(before.storage.may_del(
                            encode_utf8((key->0)@),
                            &self.storage,
                            deleted,
                        ) && output == silent(outcome_of_del(deleted)));
                    }
                }
                output
            },
            Some(Commands::Server { port }) => {
                let outcome = run_server(&self.api_server, port);
                let ghost handed = outcome;
                let output = match outcome {
                    Ok(()) => Ok(None),
                    Err(e) => Err(e),
                };
                proof {
                    if port is Some {
                        let done = choose|done: Result<(), AsStdError>| #[trigger]
                            before.api_server.may_run(port->0, done) && handed
                                == outcome_of_server::<S::Error>(done);
                        assert(before.api_server.may_run(port->0, done) && output == silent(
                            outcome_of_server::<S::Error>(done),
                        ));
                    }
                }
                output
            },
            None => Ok(None),
        }
    }
}

/// What `set` hands back for what the store answered.
pub fn set_outcome<E>(stored: Result<(), E>) -> (output: Result<(), RunError<E>>)
    ensures
        output == outcome_of_set(stored),
{
    match stored {
        Ok(_) => Ok(()),
        Err(e) => Err(RunError::Storage(e)),
    }
}

/// What `get` hands back for what the store answered.
pub fn get_outcome<E>(found: Result<Option<Vec<u8>>, E>) -> (output: Result<
    Option<Vec<u8>>,
    RunError<E>,
>)
    ensures
        output == outcome_of_get(found),
{
    match found {
        Ok(value) => Ok(value),
        Err(e) => Err(RunError::Storage(e)),
    }
}

/// What `del` hands back for what the store answered.
pub fn del_outcome<E>(deleted: Result<bool, E>) -> (output: Result<(), RunError<E>>)
    ensures
        output == outcome_of_del(deleted),
{
    match deleted {
        Ok(_) => Ok(()),
        Err(e) => Err(RunError::Storage(e)),
    }
}

fn set_key<S: KeyValueStorage>(storage: &mut S, key: &Option<String>, value: &Option<String>) -> (output:
    Result<(), RunError<S::Error>>)
    ensures
        value is None ==> output == Err::<(), RunError<S::Error>>(
            RunError::Cli(CliError::MissingValue),
        ) && *final(storage) == *old(storage),
        value is Some && key is None ==> output == Err::<(), RunError<S::Error>>(
            RunError::Cli(CliError::MissingKey),
        ) && *final(storage) == *old(storage),
        value is Some && key is Some ==> exists|stored: Result<(), S::Error>| #[trigger]
            old(storage).may_set(
                encode_utf8((key->0)@),
                encode_utf8((value->0)@),
                final(storage),
                stored,
            ) && output == outcome_of_set(stored),
{
    match (key, value) {
        (Some(key), Some(value)) => {
            let stored = storage.set(key_bytes(key), key_bytes(value));
            let ghost answered = stored;
            let output = set_outcome(stored);
            assert(old(storage).may_set(encode_utf8(key@), encode_utf8(value@), storage, answered)
                && output == outcome_of_set(answered));
            output
        },
        (_, None) => Err(RunError::Cli(CliError::MissingValue)),
        (None, _) => Err(RunError::Cli(CliError::MissingKey)),
    }
}

fn get_key<S: KeyValueStorage>(storage: &mut S, key: &Option<String>) -> (output: Result<
    Option<Vec<u8>>,
    RunError<S::Error>,
>)
    ensures
        key is None ==> output == Err::<Option<Vec<u8>>, RunError<S::Error>>(
            RunError::Cli(CliError::MissingKey),
        ) && *final(storage) == *old(storage),
        key is Some ==> exists|found: Result<Option<Vec<u8>>, S::Error>| #[trigger]
            old(storage).may_get(encode_utf8((key->0)@), final(storage), found) && output
                == outcome_of_get(found),
{
    match key {
        Some(key) => {
            let found = storage.get(key_bytes(key));
            let ghost answered = found;
            let output = get_outcome(found);
            assert(old(storage).may_get(encode_utf8(key@), storage, answered) && output
                == outcome_of_get(answered));
            output
        },
        None => Err(RunError::Cli(CliError::MissingKey)),
    }
}

fn del_key<S: KeyValueStorage>(storage: &mut S, key: &Option<String>) -> (output: Result<
    (),
    RunError<S::Error>,
>)
    ensures
        key is None ==> output == Err::<(), RunError<S::Error>>(
            RunError::Cli(CliError::MissingKey),
        ) && *final(storage) == *old(storage),
        key is Some ==> exists|deleted: Result<bool, S::Error>| #[trigger]
            old(storage).may_del(encode_utf8((key->0)@), final(storage), deleted) && output
                == outcome_of_del(deleted),
{
    match key {
        Some(key) => {
            let deleted = storage.del(key_bytes(key));
            let ghost answered = deleted;
            let output = del_outcome(deleted);
            assert(old(storage).may_del(encode_utf8(key@), storage, answered) && output
                == outcome_of_del(answered));
            output
        },
        None => Err(RunError::Cli(CliError::MissingKey)),
    }
}

fn run_server<T: ApiServer, E>(server: &T, port: &Option<u16>) -> (output: Result<(), RunError<E>>)
    ensures
        port is None ==> output == Err::<(), RunError<E>>(RunError::Cli(CliError::InvalidPort)),
        port is Some ==> exists|done: Result<(), AsStdError>| #[trigger]
            server.may_run(port->0, done) && output == outcome_of_server::<E>(done),
{
    match port {
        Some(port) => {
            let done = server.run(*port);
            let ghost ended = done;
            let output = match done {
                Ok(()) => Ok(()),
                Err(e) => Err(RunError::Server(e)),
            };
            assert(server.may_run(*port, ended) && output == outcome_of_server::<E>(ended));
            output
        },
        None => Err(RunError::Cli(CliError::InvalidPort)),
    }
}

} // verus!
