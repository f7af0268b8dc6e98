use kvstore::storage::keydir::{KeyDir, KeyDirEntry};

fn entry(n: u64) -> KeyDirEntry {
    KeyDirEntry { fileid: n % 7, len: 20 + n, pos: n * 3, tstamp: n as i64 - 5 }
}

#[test]
fn a_new_directory_is_empty() {
    let keydir = KeyDir::new();
    assert_eq!(keydir.get(b""), None);
    assert_eq!(keydir.get(b"k"), None);
    assert!(!keydir.contains_key(b"k"));
}

#[test]
fn insert_binds_and_rebinds() {
    let mut keydir = KeyDir::new();
    keydir.insert(b"k".to_vec(), entry(1));
    keydir.insert(Vec::new(), entry(2));
    assert_eq!(keydir.get(b"k"), Some(entry(1)));
    assert_eq!(keydir.get(b""), Some(entry(2)));
    keydir.insert(b"k".to_vec(), entry(3));
    assert_eq!(keydir.get(b"k"), Some(entry(3)));
    assert_eq!(keydir.get(b"K"), None);
    assert_eq!(keydir.get(b"k\0"), None);
}

#[test]
fn remove_unbinds_and_says_whether_the_key_was_there() {
    let mut keydir = KeyDir::new();
    keydir.insert(b"a".to_vec(), entry(1));
    keydir.insert(b"b".to_vec(), entry(2));
    assert!(keydir.remove(b"a"));
    assert!(!keydir.remove(b"a"));
    assert!(!keydir.remove(b"never"));
    assert_eq!(keydir.get(b"a"), None);
    assert_eq!(keydir.get(b"b"), Some(entry(2)));
}

#[test]
fn many_keys_are_kept_apart() {
    let mut keydir = KeyDir::new();
    let key = |n: u64| format!("key-{}", n).into_bytes();
    for n in 0..5000 {
        keydir.insert(key(n), entry(n));
    }
    for n in (0..5000).step_by(3) {
        assert!(keydir.remove(&key(n)));
    }
    for n in (0..5000).step_by(5) {
        keydir.insert(key(n), entry(n + 1));
    }
    for n in 0..5000 {
        let expected = if n % 5 == 0 {
            Some(entry(n + 1))
        } else if n % 3 == 0 {
            None
        } else {
            Some(entry(n))
        };
        assert_eq!(keydir.get(&key(n)), expected, "{}", n);
    }
}

#[test]
fn two_directories_agree_whatever_their_seeds() {
    let mut one = KeyDir::new();
    let mut two = KeyDir::new();
    for n in 0..300u64 {
        one.insert(n.to_le_bytes().to_vec(), entry(n));
        two.insert(n.to_le_bytes().to_vec(), entry(n));
    }
    for n in 0..400u64 {
        assert_eq!(one.get(&n.to_le_bytes()), two.get(&n.to_le_bytes()));
    }
}
