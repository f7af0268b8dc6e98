use kvstore::api::app::{del_key, del_response, get_key, get_response, key_bytes, set_key, set_response, ApiResponse};
use kvstore::api::ApiServer;
use kvstore::cli::command::runner::{del_outcome, get_outcome, set_outcome, CliError, CommandRunner, RunError};
use kvstore::cli::command::Commands;
use kvstore::cli::{run, Cli};
use kvstore::storage::error::{AsStdError, ErrorKind};
use kvstore::storage::KeyValueStorage;
use std::collections::HashMap;

/// A store in memory that fails on request.
#[derive(Clone, Default)]
struct MemStore {
    map: HashMap<Vec<u8>, Vec<u8>>,
    broken: bool,
    calls: usize,
    /// Each call as it came: the method, the key and, for `set`, the value.
    log: Vec<(&'static str, Vec<u8>, Vec<u8>)>,
}

impl MemStore {
    fn check(&mut self) -> Result<(), AsStdError> {
        self.calls += 1;
        if self.broken {
            Err(AsStdError::io("disk on fire"))
        } else {
            Ok(())
        }
    }
}

impl KeyValueStorage for MemStore {
    type Error = AsStdError;

    fn set(&mut self, key: Vec<u8>, value: Vec<u8>) -> Result<(), AsStdError> {
        self.log.push(("set", key.clone(), value.clone()));
        self.check()?;
        self.map.insert(key, value);
        Ok(())
    }

    fn get(&mut self, key: Vec<u8>) -> Result<Option<Vec<u8>>, AsStdError> {
        self.log.push(("get", key.clone(), Vec::new()));
        self.check()?;
        Ok(self.map.get(&key).cloned())
    }

    fn del(&mut self, key: Vec<u8>) -> Result<bool, AsStdError> {
        self.log.push(("del", key.clone(), Vec::new()));
        self.check()?;
        Ok(self.map.remove(&key).is_some())
    }
}

struct NoServer {
    fails: bool,
}

impl ApiServer for NoServer {
    type Storage = MemStore;

    fn run(&self, _port: u16) -> Result<(), AsStdError> {
        if self.fails {
            Err(AsStdError::io("port taken"))
        } else {
            Ok(())
        }
    }
}

fn runner() -> CommandRunner<MemStore, NoServer> {
    CommandRunner::new(MemStore::default(), NoServer { fails: false })
}

fn some(text: &str) -> Option<String> {
    Some(text.to_string())
}

#[test]
fn commands_reach_the_store() {
    let mut r = runner();
    assert_eq!(r.run(&Some(Commands::Put { key: some("k"), value: some("v") })), Ok(None));
    assert_eq!(r.run(&Some(Commands::Get { key: some("k") })), Ok(Some(b"v".to_vec())));
    assert_eq!(r.run(&Some(Commands::Get { key: some("other") })), Ok(None));
    assert_eq!(r.run(&Some(Commands::Del { key: some("k") })), Ok(None));
    assert_eq!(r.run(&Some(Commands::Get { key: some("k") })), Ok(None));
    assert_eq!(r.run(&Some(Commands::Del { key: some("k") })), Ok(None));
    assert_eq!(r.run(&Some(Commands::Server { port: Some(5555) })), Ok(None));
    assert_eq!(r.run(&None), Ok(None));
    assert_eq!(r.storage.calls, 6);
}

#[test]
fn commands_without_their_arguments_fail_before_the_store() {
    let mut r = runner();
    let cases = [
        (Commands::Put { key: some("k"), value: None }, CliError::MissingValue),
        (Commands::Put { key: None, value: None }, CliError::MissingValue),
        (Commands::Put { key: None, value: some("v") }, CliError::MissingKey),
        (Commands::Get { key: None }, CliError::MissingKey),
        (Commands::Del { key: None }, CliError::MissingKey),
        (Commands::Server { port: None }, CliError::InvalidPort),
    ];
    for (command, error) in cases {
        assert_eq!(r.run(&Some(command)), Err(RunError::Cli(error)));
    }
    assert_eq!(r.storage.calls, 0);
}

#[test]
fn failures_of_the_store_and_the_server_are_handed_on() {
    let mut r = CommandRunner::new(MemStore { broken: true, ..MemStore::default() }, NoServer { fails: true });
    let down = AsStdError::io("disk on fire");
    assert_eq!(r.run(&Some(Commands::Put { key: some("k"), value: some("v") })), Err(RunError::Storage(down.clone())));
    assert_eq!(r.run(&Some(Commands::Get { key: some("k") })), Err(RunError::Storage(down.clone())));
    assert_eq!(r.run(&Some(Commands::Del { key: some("k") })), Err(RunError::Storage(down.clone())));
    assert_eq!(r.run(&Some(Commands::Server { port: Some(1) })), Err(RunError::Server(AsStdError::io("port taken"))));
    assert_eq!(set_outcome(Err::<(), AsStdError>(down.clone())), Err(RunError::Storage(down.clone())));
    assert_eq!(get_outcome(Ok::<Option<Vec<u8>>, AsStdError>(Some(vec![1]))), Ok(Some(vec![1])));
    assert_eq!(del_outcome(Ok::<bool, AsStdError>(false)), Ok(()));
}

#[test]
fn argument_errors_have_their_texts() {
    assert_eq!(CliError::MissingKey.message(), "Missing key");
    assert_eq!(CliError::MissingValue.message(), "Missing value");
    assert_eq!(CliError::InvalidPort.message(), "Invalid port");
}

#[test]
fn the_arguments_are_plain_data() {
    let cli = Cli { data_dir: some("/tmp/kv"), command: Some(Commands::Get { key: some("k") }) };
    assert_eq!(cli.clone(), cli);
    assert_eq!(cli.data_dir.as_deref(), Some("/tmp/kv"));
}

#[test]
fn get_answers_200_404_500() {
    let mut store = MemStore::default();
    store.map.insert(b"k".to_vec(), vec![0, 1, 2]);
    let hit = get_key(&mut store, "k".to_string());
    assert_eq!(hit, ApiResponse::Data(vec![0, 1, 2]));
    assert_eq!(hit.status_code(), 200);
    let miss = get_key(&mut store, "other".to_string());
    assert_eq!(miss, ApiResponse::NotFound);
    assert_eq!(miss.status_code(), 404);
    store.broken = true;
    let failed = get_key(&mut store, "k".to_string());
    assert_eq!(failed, ApiResponse::ServerError("Error: io: disk on fire".to_string()));
    assert_eq!(failed.status_code(), 500);
}

#[test]
fn post_answers_204_400_500() {
    let mut store = MemStore::default();
    let text = set_key(&mut store, "a".to_string(), some("text"), None);
    assert_eq!(text, ApiResponse::NoContent);
    assert_eq!(text.status_code(), 204);
    assert_eq!(set_key(&mut store, "b".to_string(), None, Some(vec![0, 255])), ApiResponse::NoContent);
    assert_eq!(store.map[&b"a".to_vec()], b"text".to_vec());
    assert_eq!(store.map[&b"b".to_vec()], vec![0, 255]);
    let calls = store.calls;
    let neither = set_key(&mut store, "c".to_string(), None, None);
    assert_eq!(neither, ApiResponse::BadRequest);
    assert_eq!(neither.status_code(), 400);
    assert_eq!(set_key(&mut store, "c".to_string(), some("x"), Some(vec![1])), ApiResponse::BadRequest);
    assert_eq!(store.calls, calls);
    assert!(!store.map.contains_key(&b"c".to_vec()));
    store.broken = true;
    assert_eq!(set_key(&mut store, "a".to_string(), some("x"), None).status_code(), 500);
}

#[test]
fn delete_answers_204_404_500() {
    let mut store = MemStore::default();
    store.map.insert(b"k".to_vec(), vec![1]);
    assert_eq!(del_key(&mut store, "k".to_string()), ApiResponse::NoContent);
    assert_eq!(del_key(&mut store, "k".to_string()), ApiResponse::NotFound);
    store.broken = true;
    assert_eq!(del_key(&mut store, "k".to_string()).status_code(), 500);
}

#[test]
fn answers_follow_what_the_store_said() {
    let down = AsStdError::new(ErrorKind::Codec, "bad");
    assert_eq!(get_response(Ok::<Option<Vec<u8>>, AsStdError>(Some(vec![9]))), ApiResponse::Data(vec![9]));
    assert_eq!(get_response(Ok::<Option<Vec<u8>>, AsStdError>(None)), ApiResponse::NotFound);
    assert_eq!(get_response(Err::<Option<Vec<u8>>, AsStdError>(down.clone())), ApiResponse::ServerError("Error: codec: bad".to_string()));
    assert_eq!(set_response(Ok::<(), AsStdError>(())), ApiResponse::NoContent);
    assert_eq!(set_response(Err::<(), AsStdError>(down.clone())).status_code(), 500);
    assert_eq!(del_response(Ok::<bool, AsStdError>(true)), ApiResponse::NoContent);
    assert_eq!(del_response(Ok::<bool, AsStdError>(false)), ApiResponse::NotFound);
    assert_eq!(del_response(Err::<bool, AsStdError>(down)).status_code(), 500);
}

#[test]
fn keys_given_as_text_are_their_utf8_bytes() {
    assert_eq!(key_bytes(&"key".to_string()), b"key".to_vec());
    assert_eq!(key_bytes(&"\u{e9}".to_string()), vec![0xc3, 0xa9]);
    assert_eq!(key_bytes(&String::new()), Vec::<u8>::new());
}

#[test]
fn one_invocation_runs_its_command() {
    let mut store = MemStore::default();
    store.map.insert(b"k".to_vec(), b"v".to_vec());
    let get = Cli { data_dir: None, command: Some(Commands::Get { key: some("k") }) };
    assert_eq!(run(get, store.clone(), NoServer { fails: false }), Ok(Some(b"v".to_vec())));
    let none = Cli { data_dir: some("d"), command: None };
    assert_eq!(run(none, store.clone(), NoServer { fails: false }), Ok(None));
    let bad = Cli { data_dir: None, command: Some(Commands::Del { key: None }) };
    assert_eq!(run(bad, store, NoServer { fails: false }), Err(RunError::Cli(CliError::MissingKey)));
}

fn call(op: &'static str, key: &[u8], value: &[u8]) -> (&'static str, Vec<u8>, Vec<u8>) {
    (op, key.to_vec(), value.to_vec())
}

#[test]
fn each_command_makes_its_one_call_with_the_bytes_of_its_arguments() {
    let mut r = runner();
    r.storage.map.insert("k\u{e9}".as_bytes().to_vec(), vec![0, 255, 7]);
    assert_eq!(r.run(&Some(Commands::Get { key: some("k\u{e9}") })), Ok(Some(vec![0, 255, 7])));
    assert_eq!(r.storage.log, vec![call("get", &[b'k', 0xc3, 0xa9], b"")]);
    r.storage.log.clear();
    assert_eq!(r.run(&Some(Commands::Put { key: some("a"), value: some("b\u{e9}") })), Ok(None));
    assert_eq!(r.storage.log, vec![call("set", b"a", &[b'b', 0xc3, 0xa9])]);
    r.storage.log.clear();
    assert_eq!(r.run(&Some(Commands::Del { key: some("a") })), Ok(None));
    assert_eq!(r.storage.log, vec![call("del", b"a", b"")]);
    r.storage.log.clear();
    assert_eq!(r.run(&Some(Commands::Server { port: Some(80) })), Ok(None));
    assert_eq!(r.run(&Some(Commands::Get { key: None })), Err(RunError::Cli(CliError::MissingKey)));
    assert_eq!(r.run(&None), Ok(None));
    assert!(r.storage.log.is_empty());
}

#[test]
fn get_hands_back_what_the_store_found() {
    let mut r = runner();
    r.storage.map.insert(b"k".to_vec(), b"raw \n bytes".to_vec());
    assert_eq!(r.run(&Some(Commands::Get { key: some("k") })), Ok(Some(b"raw \n bytes".to_vec())));
    assert_eq!(r.run(&Some(Commands::Get { key: some("miss") })), Ok(None));
    r.storage.broken = true;
    assert_eq!(
        r.run(&Some(Commands::Get { key: some("k") })),
        Err(RunError::Storage(AsStdError::io("disk on fire")))
    );
    assert_eq!(r.storage.log.len(), 3);
    assert!(r.storage.log.iter().all(|(op, _, _)| *op == "get"));
}

#[test]
fn post_stores_the_one_field_it_was_given() {
    let mut store = MemStore::default();
    assert_eq!(set_key(&mut store, "k\u{e9}".to_string(), some("text"), None), ApiResponse::NoContent);
    assert_eq!(store.log, vec![call("set", &[b'k', 0xc3, 0xa9], b"text")]);
    store.log.clear();
    assert_eq!(set_key(&mut store, "k".to_string(), None, Some(vec![0, 159, 255])), ApiResponse::NoContent);
    assert_eq!(store.log, vec![call("set", b"k", &[0, 159, 255])]);
    store.log.clear();
    assert_eq!(set_key(&mut store, "k".to_string(), None, None), ApiResponse::BadRequest);
    assert_eq!(set_key(&mut store, "k".to_string(), some("a"), Some(vec![1])), ApiResponse::BadRequest);
    assert!(store.log.is_empty());
    store.broken = true;
    let failed = set_key(&mut store, "k".to_string(), some("v"), None);
    assert_eq!(failed, ApiResponse::ServerError("Error: io: disk on fire".to_string()));
    assert_eq!(store.log, vec![call("set", b"k", b"v")]);
}

#[test]
fn get_and_delete_ask_the_store_once_for_the_key() {
    let mut store = MemStore::default();
    store.map.insert(b"k".to_vec(), vec![1]);
    assert_eq!(get_key(&mut store, "k".to_string()), ApiResponse::Data(vec![1]));
    assert_eq!(del_key(&mut store, "k".to_string()), ApiResponse::NoContent);
    assert_eq!(store.log, vec![call("get", b"k", b""), call("del", b"k", b"")]);
}
