use kvstore::storage::logdir::{LogDir, ReadOrder, MAX_READER_CACHE};

#[test]
fn a_new_cache_has_no_file_open() {
    let mut logdir = LogDir::new();
    assert_eq!(logdir.len(), 0);
    assert_eq!(MAX_READER_CACHE, 32);
    assert_eq!(logdir.read(5, 10, 20), ReadOrder { fileid: 5, len: 10, pos: 20, open: true });
    // Asking again does not open the file: only the host's report does.
    assert!(logdir.read(5, 1, 2).open);
    assert_eq!(logdir.len(), 0);
}

#[test]
fn an_opened_file_is_found_open() {
    let mut logdir = LogDir::new();
    assert_eq!(logdir.opened(5), None);
    assert_eq!(logdir.len(), 1);
    assert_eq!(logdir.read(5, 10, 20), ReadOrder { fileid: 5, len: 10, pos: 20, open: false });
    assert!(logdir.read(6, 10, 20).open);
    // Reporting a file twice closes nothing and counts it once.
    assert_eq!(logdir.opened(5), None);
    assert_eq!(logdir.len(), 1);
}

#[test]
fn the_least_recently_read_file_is_closed_when_the_cache_is_full() {
    let mut logdir = LogDir::new();
    for id in 0..32 {
        assert_eq!(logdir.opened(id), None);
    }
    assert_eq!(logdir.len(), 32);
    // Reading file 0 makes it the most recently used; file 1 is then the oldest.
    assert!(!logdir.read(0, 1, 0).open);
    assert_eq!(logdir.opened(100), Some(1));
    assert_eq!(logdir.opened(101), Some(2));
    assert_eq!(logdir.len(), 32);
    assert!(!logdir.read(0, 1, 0).open);
    assert!(logdir.read(1, 1, 0).open);
    assert!(logdir.read(2, 1, 0).open);
    assert!(!logdir.read(3, 1, 0).open);
}

#[test]
fn the_cache_never_holds_more_than_its_bound() {
    let mut logdir = LogDir::new();
    for id in 0..1000u64 {
        if logdir.read(id % 77, 1, 0).open {
            logdir.opened(id % 77);
        }
        assert!(logdir.len() <= MAX_READER_CACHE);
    }
    assert_eq!(logdir.len(), 32);
}

#[test]
fn a_clone_starts_with_no_file_open() {
    let mut logdir = LogDir::new();
    logdir.opened(1);
    logdir.opened(2);
    let mut copy = logdir.clone();
    assert_eq!(copy.len(), 0);
    assert!(copy.read(1, 1, 0).open);
    assert_eq!(logdir.len(), 2);
}
