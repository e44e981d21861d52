use mvc_core::plan::{archive_plan, plan_restore, removal_plan, Entry, EntryKind, PackItem};
use mvc_core::record::{archive_digest, check_record, RestoreError, User};
use mvc_core::repository::Repository;

fn entry(path: &str, kind: EntryKind) -> Entry {
    Entry { path: path.to_string(), kind }
}

fn paths(es: &[Entry]) -> Vec<String> {
    es.iter().map(|e| e.path.clone()).collect()
}

fn names(es: &[PackItem]) -> Vec<String> {
    es.iter().map(|e| e.name.clone()).collect()
}

fn list(items: &[&str]) -> Vec<String> {
    items.iter().map(|s| s.to_string()).collect()
}

#[test]
fn archive_plan_drops_ignored_and_strips_current_dir() {
    let walk = vec![
        entry("./build", EntryKind::Directory),
        entry("./build/out.o", EntryKind::File),
        entry("./src", EntryKind::Directory),
        entry("./src/build", EntryKind::Directory),
        entry("./src/build/x", EntryKind::File),
        entry("./link", EntryKind::Symlink),
    ];
    let plan = archive_plan(".", &walk, &list(&["build"]));
    assert_eq!(names(&plan), vec!["src", "src/build", "src/build/x", "link"]);
    assert_eq!(plan[2].source, "./src/build/x");
    assert_eq!(plan[0].kind, EntryKind::Directory);
    assert_eq!(plan[3].kind, EntryKind::Symlink);
}

#[test]
fn archive_plan_keeps_everything_without_ignores() {
    let walk = vec![entry("source/a.txt", EntryKind::File)];
    let plan = archive_plan("source", &walk, &list(&[]));
    assert_eq!(names(&plan), vec!["a.txt"]);
    assert_eq!(plan[0].source, "source/a.txt");
}

#[test]
fn archive_plan_of_absolute_root_is_empty() {
    let walk = vec![entry("/tmp/x/a.txt", EntryKind::File), entry("/tmp/x/d", EntryKind::Directory)];
    assert!(archive_plan("/tmp/x", &walk, &list(&[])).is_empty());
    assert!(archive_plan("src", &walk, &list(&[])).is_empty());
}

#[test]
fn archive_plan_skips_repository_directory() {
    let walk = vec![
        entry("R/archives", EntryKind::Directory),
        entry("R/archives/1.tar", EntryKind::File),
        entry("R/HEAD", EntryKind::File),
    ];
    let plan = archive_plan(".", &walk, &list(&["R/archives"]));
    assert!(plan.is_empty());
    let walk = vec![
        entry("./R/archives", EntryKind::Directory),
        entry("./R/archives/1.tar", EntryKind::File),
        entry("./R/HEAD", EntryKind::File),
    ];
    let plan = archive_plan(".", &walk, &list(&["R/archives"]));
    assert_eq!(names(&plan), vec!["R/HEAD"]);
}

#[test]
fn removal_plan_keeps_directory_holding_ignored_entry() {
    let walk = vec![
        entry("./keep/me.txt", EntryKind::File),
        entry("./keep", EntryKind::Directory),
        entry("./d/f.txt", EntryKind::File),
        entry("./d", EntryKind::Directory),
        entry("./a.txt", EntryKind::File),
    ];
    let plan = removal_plan(".", &walk, &list(&["keep/me.txt"]));
    assert_eq!(paths(&plan), vec!["./d/f.txt", "./d", "./a.txt"]);
}

#[test]
fn removal_plan_never_touches_absolute_paths() {
    let walk = vec![entry("/etc/x", EntryKind::File)];
    assert!(removal_plan("/etc", &walk, &list(&[])).is_empty());
    assert!(removal_plan("dest", &walk, &list(&[])).is_empty());
}

#[test]
fn restore_is_planned_only_after_check() {
    let digest = archive_digest(&b"archive".to_vec());
    let text = format!("{{\"hash\":\"{}\",\"message\":\"first\"}}", digest);
    let dest = vec![entry("./a.txt", EntryKind::File)];
    let plan = plan_restore(&text, &digest, ".", &dest, &list(&[])).unwrap();
    assert_eq!(plan.message, "first");
    assert_eq!(paths(&plan.removals), vec!["./a.txt"]);

    let altered = archive_digest(&b"archivE".to_vec());
    let refused = plan_restore(&text, &altered, ".", &dest, &list(&[]));
    assert!(matches!(refused, Err(RestoreError::IntegrityMismatch)));
}

#[test]
fn restore_plans_agree_when_repeated() {
    let digest = archive_digest(&b"x".to_vec());
    let text = format!("{{\"hash\":\"{}\",\"message\":\"m\"}}", digest);
    let dest = vec![entry("./f", EntryKind::File), entry("./d", EntryKind::Directory)];
    let a = plan_restore(&text, &digest, ".", &dest, &list(&["d"])).unwrap();
    let b = plan_restore(&text, &digest, ".", &dest, &list(&["d"])).unwrap();
    assert_eq!(a.message, b.message);
    assert_eq!(paths(&a.removals), paths(&b.removals));
    assert_eq!(paths(&a.removals), vec!["./f"]);
}

#[test]
fn end_to_end_first_snapshot() {

    let repo = Repository::new("R");
    let head = Repository::initial_head();
    assert_eq!(head, "0");
    let save = repo.plan_save(&head).unwrap();
    assert_eq!(save.id, 1);
    assert_eq!(save.archive, "R/archives/1.tar");
    assert_eq!(save.head, "1");

    let walk = vec![entry("source/a.txt", EntryKind::File)];
    let packed = archive_plan("source", &walk, &list(&["R/archives"]));
    assert_eq!(names(&packed), vec!["a.txt"]);

    let archive_bytes = b"hello".to_vec();
    let digest = archive_digest(&archive_bytes);
    let user = User::new_from_name("me");
    let snap = mvc_core::record::Snapshot::new(&digest, "first", &user);
    let text = format!(
        "{{\"hash\":\"{}\",\"message\":\"{}\",\"email\":\"{}\",\"name\":\"{}\"}}",
        snap.hash, snap.message, snap.email, snap.name
    );
    assert_eq!(check_record(&text, &archive_digest(&archive_bytes)), Ok("first".to_string()));
    let restore = plan_restore(&text, &digest, "dest", &Vec::new(), &list(&[])).unwrap();
    assert_eq!(restore.message, "first");
    assert!(restore.removals.is_empty());
}

#[test]
fn archive_plan_names_inside_nested_root() {
    let walk = vec![
        entry("work/proj/build", EntryKind::Directory),
        entry("work/proj/build/x", EntryKind::File),
        entry("work/proj/src/build", EntryKind::Directory),
        entry("work/proj/src/build/y", EntryKind::File),
    ];
    let plan = archive_plan("work/proj/", &walk, &list(&["build"]));
    assert_eq!(names(&plan), vec!["src/build", "src/build/y"]);
    let plan = archive_plan("work/proj", &walk, &list(&["build"]));
    assert_eq!(names(&plan), vec!["src/build", "src/build/y"]);
}

#[test]
fn removal_plan_matches_names_inside_destination() {
    let walk = vec![
        entry("dest/keep/a", EntryKind::File),
        entry("dest/keep", EntryKind::Directory),
        entry("dest/b", EntryKind::File),
    ];
    let plan = removal_plan("dest", &walk, &list(&["keep"]));
    assert_eq!(paths(&plan), vec!["dest/b"]);
}
