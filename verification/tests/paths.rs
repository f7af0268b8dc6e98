use kvstore::storage::file::resolve_data_dir;
use kvstore::storage::names::{data_file_name, parse_fileid};
use kvstore::util::{ends_with_slash, normalize_path, PathComponent};

/// Splits a path at `/` as a path parser does: a leading `/` is the root,
/// empty parts and inner `.` are dropped.
fn components(path: &str) -> Vec<PathComponent> {
    let mut out = Vec::new();
    if path.starts_with('/') {
        out.push(PathComponent::RootDir);
    }
    for (i, part) in path.split('/').filter(|p| !p.is_empty()).enumerate() {
        match part {
            "." if i == 0 && !path.starts_with('/') => out.push(PathComponent::CurDir),
            "." => {}
            ".." => out.push(PathComponent::ParentDir),
            name => out.push(PathComponent::Normal(name.to_string())),
        }
    }
    out
}

fn normal(name: &str) -> PathComponent {
    PathComponent::Normal(name.to_string())
}

fn normalized(path: &str) -> Vec<PathComponent> {
    normalize_path(&components(path), ends_with_slash(path))
}

#[test]
fn parent_components_pop_what_was_pushed_last() {
    assert_eq!(normalized("a/b/../c"), vec![normal("a"), normal("c")]);
    assert_eq!(normalized("/a/b/c/../../d"), vec![PathComponent::RootDir, normal("a"), normal("d")]);
    assert_eq!(normalized("a/.."), vec![]);
    assert_eq!(normalized("./a/../b"), vec![PathComponent::CurDir, normal("b")]);
    // The root is a component like any other: it is popped too.
    assert_eq!(normalized("/.."), vec![]);
    assert_eq!(normalized("/../a"), vec![normal("a")]);
}

#[test]
fn parent_components_stay_where_nothing_can_be_popped() {
    assert_eq!(normalized(".."), vec![PathComponent::ParentDir]);
    assert_eq!(normalized("a/../.."), vec![PathComponent::ParentDir]);
    assert_eq!(normalized("../a"), vec![PathComponent::ParentDir, normal("a")]);
    // A `..` pops the `..` that was pushed before it.
    assert_eq!(normalized("../.."), vec![]);
    assert_eq!(normalized("../../.."), vec![PathComponent::ParentDir]);
}

#[test]
fn paths_without_parent_components_are_kept() {
    assert_eq!(normalized(".test/data"), vec![normal(".test"), normal("data")]);
    assert_eq!(normalized("/tmp/kv1"), vec![PathComponent::RootDir, normal("tmp"), normal("kv1")]);
    assert_eq!(normalized(""), vec![]);
}

#[test]
fn a_trailing_slash_is_kept_as_an_empty_component() {
    assert_eq!(normalized("a/b/"), vec![normal("a"), normal("b"), normal("")]);
    assert_eq!(normalized("a/b/../"), vec![normal("a"), normal("")]);
    assert_eq!(normalized("/"), vec![PathComponent::RootDir, normal("")]);
    assert!(ends_with_slash("a/"));
    assert!(ends_with_slash("/"));
    assert!(!ends_with_slash("a"));
    assert!(!ends_with_slash(""));
    assert!(!ends_with_slash("a/b\u{e9}"));
}

#[test]
fn prefixes_are_components_like_any_other() {
    let path = vec![PathComponent::Prefix("C:".to_string()), PathComponent::RootDir, normal("a"), PathComponent::ParentDir];
    assert_eq!(normalize_path(&path, false), vec![PathComponent::Prefix("C:".to_string()), PathComponent::RootDir]);
}

#[test]
fn the_data_directory_is_the_given_one_or_the_default() {
    let cwd = components("/home/user");
    assert_eq!(
        resolve_data_dir(Some(components("data/../store/")), true, Vec::new()),
        vec![normal("store"), normal("")]
    );
    assert_eq!(
        resolve_data_dir(None, false, cwd),
        vec![PathComponent::RootDir, normal("home"), normal("user"), normal(".kvstore"), normal("data")]
    );
}

#[test]
fn data_files_are_named_by_their_id_in_decimal() {
    assert_eq!(data_file_name(0), "0");
    assert_eq!(data_file_name(7), "7");
    assert_eq!(data_file_name(12), "12");
    assert_eq!(data_file_name(1000), "1000");
    assert_eq!(data_file_name(u64::MAX), "18446744073709551615");
    for id in [0u64, 1, 9, 10, 99, 100, 12345, u64::MAX - 1, u64::MAX] {
        assert_eq!(parse_fileid(&data_file_name(id)), Some(id));
        assert_eq!(data_file_name(id), id.to_string());
    }
}

#[test]
fn names_that_read_as_a_number_are_data_files() {
    assert_eq!(parse_fileid("0"), Some(0));
    assert_eq!(parse_fileid("12"), Some(12));
    assert_eq!(parse_fileid("18446744073709551615"), Some(u64::MAX));
    assert_eq!(parse_fileid("007"), Some(7));
    assert_eq!(parse_fileid("00"), Some(0));
    assert_eq!(parse_fileid("+1"), Some(1));
    assert_eq!(parse_fileid("+0018446744073709551615"), Some(u64::MAX));
}

#[test]
fn other_names_belong_to_no_data_file() {
    for name in [
        "", "+", "++1", "a", "1a", "a1", "-1", "-0", "1+", " 1", "1 ", "1.0", "1_000", "0x10",
        "18446744073709551616", "99999999999999999999999", "hint", ".lock", "\u{662}",
    ] {
        assert_eq!(parse_fileid(name), None, "{:?}", name);
    }
}

#[test]
fn names_are_read_as_the_standard_parser_reads_them() {
    for name in [
        "", "0", "1", "+", "+5", "-5", "05", "5 ", "18446744073709551615", "18446744073709551616",
        "184467440737095516150", "x", "12x", "+-1", "\u{661}",
    ] {
        assert_eq!(parse_fileid(name), name.parse::<u64>().ok(), "{:?}", name);
    }
}
