use mvc_core::record::{archive_digest, check_fields, check_record, RestoreError, Snapshot, User};

const HELLO_SHA256: &str = "2cf24dba5fb0a30e26e83b2ac5b9e29e1b161e5c1fa7425e73043362938b9824";
const EMPTY_SHA256: &str = "e3b0c44298fc1c149afbf4c8996fb92427ae41e4649b934ca495991b7852b855";

#[test]
fn user_from_name() {
    let user = User::new_from_name("My name");
    assert_eq!(user.name, "My name");
    assert_eq!(user.email, "None");
}

#[test]
fn user_from_email() {
    let user = User::new_from_email("My@mail.foo");
    assert_eq!(user.email, "My@mail.foo");
    assert_eq!(user.name, "None");
}

#[test]
fn snapshot_record_fields() {
    let user = User { email: "e@x".to_string(), name: "n".to_string() };
    let snap = Snapshot::new("abc", "first", &user);
    assert_eq!(snap.hash, "abc");
    assert_eq!(snap.message, "first");
    assert_eq!(snap.email, "e@x");
    assert_eq!(snap.name, "n");
}

#[test]
fn digest_of_known_bytes() {
    assert_eq!(archive_digest(&b"hello".to_vec()), HELLO_SHA256);
    assert_eq!(archive_digest(&Vec::new()), EMPTY_SHA256);
}

#[test]
fn digest_changes_with_content() {
    let a = archive_digest(&b"hello".to_vec());
    let b = archive_digest(&b"hellp".to_vec());
    assert_ne!(a, b);
    assert_eq!(a.len(), 64);
}

fn record(hash: &str, message: &str) -> String {
    format!(
        "{{\"hash\":\"{}\",\"message\":\"{}\",\"email\":\"None\",\"name\":\"me\"}}",
        hash, message
    )
}

#[test]
fn matching_record_gives_message() {
    let text = record(HELLO_SHA256, "first");
    assert_eq!(check_record(&text, HELLO_SHA256), Ok("first".to_string()));
}

#[test]
fn altered_archive_is_refused() {
    let text = record(HELLO_SHA256, "first");
    let now = archive_digest(&b"hellO".to_vec());
    assert_eq!(check_record(&text, &now), Err(RestoreError::IntegrityMismatch));
}

#[test]
fn record_without_message_is_refused() {
    let text = format!("{{\"hash\":\"{}\"}}", HELLO_SHA256);
    assert_eq!(check_record(&text, HELLO_SHA256), Err(RestoreError::MissingField));
    let text = format!("{{\"hash\":\"{}\",\"message\":5}}", HELLO_SHA256);
    assert_eq!(check_record(&text, HELLO_SHA256), Err(RestoreError::MissingField));
}

#[test]
fn record_that_is_not_json_is_refused() {
    assert_eq!(check_record("{not json", HELLO_SHA256), Err(RestoreError::Malformed));
    assert_eq!(check_record("", HELLO_SHA256), Err(RestoreError::Malformed));
}

#[test]
fn check_fields_cases() {
    let s = |x: &str| Some(Some(x.to_string()));
    assert_eq!(check_fields(s("h"), s("m"), "h"), Ok("m".to_string()));
    assert_eq!(check_fields(s("h"), s("m"), "g"), Err(RestoreError::IntegrityMismatch));
    assert_eq!(check_fields(Some(None), s("m"), "h"), Err(RestoreError::MissingField));
    assert_eq!(check_fields(s("h"), Some(None), "h"), Err(RestoreError::MissingField));
    assert_eq!(check_fields(None, None, "h"), Err(RestoreError::Malformed));
}
