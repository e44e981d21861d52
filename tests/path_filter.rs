use mvc_core::path_filter::should_ignore;

fn list(items: &[&str]) -> Vec<String> {
    items.iter().map(|s| s.to_string()).collect()
}

#[test]
fn top_level_build_is_ignored() {
    let ignore = list(&["build"]);
    assert!(should_ignore("build", &ignore));
    assert!(should_ignore("build/out.o", &ignore));
    assert!(should_ignore("build/deep/x", &ignore));
}

#[test]
fn nested_build_is_not_ignored() {
    let ignore = list(&["build"]);
    assert!(!should_ignore("src/build", &ignore));
    assert!(!should_ignore("src/build/out.o", &ignore));
    assert!(!should_ignore("builds", &ignore));
    assert!(!should_ignore("buil", &ignore));
}

#[test]
fn absolute_paths_are_always_ignored() {
    assert!(should_ignore("/etc/passwd", &list(&[])));
    assert!(should_ignore("/", &list(&["other"])));
}

#[test]
fn absolute_ignore_entry_does_not_match_relative_path() {
    let ignore = list(&["/home/user/build"]);
    assert!(!should_ignore("build", &ignore));
}

#[test]
fn current_dir_marker_is_ignored() {
    assert!(should_ignore(".", &list(&[])));
    assert!(should_ignore("./a.txt", &list(&[])));
}

#[test]
fn plain_relative_path_with_empty_list_is_kept() {
    assert!(!should_ignore("a.txt", &list(&[])));
    assert!(!should_ignore("src/main.rs", &list(&[])));
}

#[test]
fn full_nested_entry_matches() {
    let ignore = list(&["src/build"]);
    assert!(should_ignore("src/build", &ignore));
    assert!(should_ignore("src/build/x", &ignore));
    assert!(!should_ignore("src", &ignore));
    assert!(!should_ignore("build", &ignore));
}

#[test]
fn matching_is_case_sensitive_and_literal() {
    let ignore = list(&["Build", "*.o"]);
    assert!(!should_ignore("build", &ignore));
    assert!(!should_ignore("a.o", &ignore));
    assert!(should_ignore("*.o", &ignore));
}

#[test]
fn empty_entry_covers_every_relative_path() {
    let ignore = list(&[""]);
    assert!(should_ignore("a", &ignore));
    assert!(should_ignore("a/b", &ignore));
}

#[test]
fn trailing_separator_is_not_an_ancestor_cut() {
    let ignore = list(&["build"]);
    assert!(!should_ignore("build/", &ignore));
    assert!(should_ignore("build/", &list(&["build/"])));
}

#[test]
fn doubled_separator_cuts_once() {
    assert!(!should_ignore("a//b", &list(&["a/"])));
    assert!(should_ignore("a//b", &list(&["a"])));
    assert!(should_ignore("a//b", &list(&["a//b"])));
    assert!(!should_ignore("a//b", &list(&["a/b"])));
}

#[test]
fn current_dir_with_separators_is_ignored() {
    assert!(should_ignore("./", &list(&[])));
    assert!(should_ignore(".//a", &list(&[])));
    assert!(!should_ignore("..", &list(&[])));
    assert!(!should_ignore(".a", &list(&[])));
}
