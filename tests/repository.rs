use mvc_core::history::HistoryError;
use mvc_core::repository::Repository;

#[test]
fn layout_under_root() {
    let repo = Repository::new("path/to/repo");
    assert_eq!(repo.head_file(), "path/to/repo/HEAD");
    assert_eq!(repo.archives_dir(), "path/to/repo/archives");
    assert_eq!(repo.metadata_dir(), "path/to/repo/metadata");
    assert_eq!(repo.archive_file(3), "path/to/repo/archives/3.tar");
    assert_eq!(repo.metadata_file(17), "path/to/repo/metadata/17.json");
}

#[test]
fn layout_with_trailing_separator_and_empty_root() {
    let repo = Repository::new("R/");
    assert_eq!(repo.head_file(), "R/HEAD");
    let bare = Repository::new("");
    assert_eq!(bare.archive_file(1), "archives/1.tar");
}

#[test]
fn first_save_plan() {
    let repo = Repository::new("R");
    let plan = repo.plan_save("0").unwrap();
    assert_eq!(plan.id, 1);
    assert_eq!(plan.archive, "R/archives/1.tar");
    assert_eq!(plan.metadata, "R/metadata/1.json");
    assert_eq!(plan.head, "1");
}

#[test]
fn save_plan_errors() {
    let repo = Repository::new("R");
    assert!(matches!(repo.plan_save("garbage"), Err(HistoryError::Unparsable)));
    assert!(matches!(repo.plan_save("4294967295"), Err(HistoryError::Exhausted)));
}
