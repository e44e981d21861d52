//! Snapshot metadata and the integrity check made before a restore.
use vstd::prelude::*;
use sha2::Digest;
use crate::text::string_from_chars;

verus! {

/// Who made a snapshot. Either field may be the text `None` when unknown.
pub struct User {
    pub email: String,
    pub name: String,
}

/// The metadata stored for one snapshot.
pub struct Snapshot {
    /// Lowercase hex SHA-256 digest of the snapshot's archive.
    pub hash: String,
    /// The message given when the snapshot was saved.
    pub message: String,
    /// Email of the author.
    pub email: String,
    /// Name of the author.
    pub name: String,
}

/// The text that stands for an unset identity field.
pub open spec fn unset() -> Seq<char> {
    seq!['N', 'o', 'n', 'e']
}

fn unset_text() -> (r: String)
    ensures
        r@ == unset(),
{
    let v: Vec<char> = vec!['N', 'o', 'n', 'e'];
    string_from_chars(&v)
}

impl User {
    /// An identity with a name and no email.
    pub fn new_from_name(name: &str) -> (r: User)
        ensures
            r.name@ == name@,
            r.email@ == unset(),
    {
        User { email: unset_text(), name: name.to_owned() }
    }

    /// An identity with an email and no name.
    pub fn new_from_email(email: &str) -> (r: User)
        ensures
            r.email@ == email@,
            r.name@ == unset(),
    {
        User { email: email.to_owned(), name: unset_text() }
    }
}

impl Snapshot {
    /// The record of a snapshot whose archive has digest `hash`.
    pub fn new(hash: &str, message: &str, user: &User) -> (r: Snapshot)
        ensures
            r.hash@ == hash@,
            r.message@ == message@,
            r.email@ == user.email@,
            r.name@ == user.name@,
    {
        Snapshot {
            hash: hash.to_owned(),
            message: message.to_owned(),
            email: user.email.clone(),
            name: user.name.clone(),
        }
    }
}

/// A lowercase hexadecimal digit.
pub open spec fn is_lower_hex(c: char) -> bool {
    ('0' <= c && c <= '9') || ('a' <= c && c <= 'f')
}

/// The lowercase hex SHA-256 digest of `data`.
pub uninterp spec fn sha256_hex_of(data: Seq<u8>) -> Seq<char>;

/// Relies on sha2's `Sha256::digest` and on the `LowerHex` formatting of its
/// 32-byte output: two lowercase hex digits per byte.
#[verifier::external_body]
fn sha256_hex(data: &[u8]) -> (r: String)
    ensures
        r@ == sha256_hex_of(data@),
        r@.len() == 64,
        forall|i: int| 0 <= i < r@.len() ==> is_lower_hex(#[trigger] r@[i]),
{
    format!("{:x}", sha2::Sha256::digest(data))
}

/// The digest recorded for, and checked against, an archive's bytes.
pub fn archive_digest(data: &Vec<u8>) -> (r: String)
    ensures
        r@ == sha256_hex_of(data@),
        r@.len() == 64,
        forall|i: int| 0 <= i < r@.len() ==> is_lower_hex(#[trigger] r@[i]),
{
    sha256_hex(data.as_slice())
}

/// What a JSON text holds under `key` of its top level: `None` when the text
/// is not JSON, `Some(None)` when the key is absent or its value is not a
/// string, `Some(Some(s))` for the string `s`.
pub uninterp spec fn json_string_field(text: Seq<char>, key: Seq<char>) -> Option<Option<Seq<char>>>;

pub open spec fn field_view(f: Option<Option<String>>) -> Option<Option<Seq<char>>> {
    match f {
        None => None,
        Some(None) => Some(None),
        Some(Some(s)) => Some(Some(s@)),
    }
}

/// Relies on `serde_json::from_str` into a `Value`, then `Value::get` and
/// `Value::as_str`: the string stored under `key`, if the text parses.
#[verifier::external_body]
fn string_field(text: &str, key: &str) -> (r: Option<Option<String>>)
    ensures
        field_view(r) == json_string_field(text@, key@),
{
    match serde_json::from_str::<serde_json::Value>(text) {
        Err(_) => None,
        Ok(v) => Some(v.get(key).and_then(|f| f.as_str()).map(|s| s.to_string())),
    }
}

/// Why a stored snapshot may not be restored.
#[derive(Debug, PartialEq, Eq, Structural, Clone, Copy)]
pub enum RestoreError {
    /// The metadata record is not JSON.
    Malformed,
    /// The record lacks the string field `hash` or `message`.
    MissingField,
    /// The archive's digest differs from the one recorded when it was made.
    IntegrityMismatch,
}

pub open spec fn hash_key() -> Seq<char> {
    seq!['h', 'a', 's', 'h']
}

pub open spec fn message_key() -> Seq<char> {
    seq!['m', 'e', 's', 's', 'a', 'g', 'e']
}

/// The outcome of checking a record's `hash` and `message` fields against the
/// digest of the archive as it is now: the message, or why not.
pub open spec fn check_outcome(
    hash: Option<Option<Seq<char>>>,
    message: Option<Option<Seq<char>>>,
    digest: Seq<char>,
) -> Result<Seq<char>, RestoreError> {
    if hash is None || message is None {
        Err(RestoreError::Malformed)
    } else if hash->0 is None || message->0 is None {
        Err(RestoreError::MissingField)
    } else if hash->0->0 != digest {
        Err(RestoreError::IntegrityMismatch)
    } else {
        Ok(message->0->0)
    }
}

pub open spec fn message_view(r: Result<String, RestoreError>) -> Result<Seq<char>, RestoreError> {
    match r {
        Ok(s) => Ok(s@),
        Err(e) => Err(e),
    }
}

/// Decides, from the fields read out of a metadata record, whether the archive
/// with digest `digest` may be restored; on success gives the stored message.
pub fn check_fields(
    hash: Option<Option<String>>,
    message: Option<Option<String>>,
    digest: &str,
) -> (r: Result<String, RestoreError>)
    ensures
        message_view(r) == check_outcome(field_view(hash), field_view(message), digest@),
{
    match (hash, message) {
        (Some(Some(h)), Some(Some(m))) => {
            let d = digest.to_owned();
            if h == d {
                Ok(m)
            } else {
                Err(RestoreError::IntegrityMismatch)
            }
        },
        (Some(_), Some(_)) => Err(RestoreError::MissingField),
        _ => Err(RestoreError::Malformed),
    }
}

/// Checks the metadata record `text` of a snapshot against the digest of its
/// archive as it is now; on success gives the stored message.
pub fn check_record(text: &str, digest: &str) -> (r: Result<String, RestoreError>)
    ensures
        message_view(r) == check_outcome(
            json_string_field(text@, hash_key()),
            json_string_field(text@, message_key()),
            digest@,
        ),
{
    let hk: Vec<char> = vec!['h', 'a', 's', 'h'];
    let mk: Vec<char> = vec!['m', 'e', 's', 's', 'a', 'g', 'e'];
    let hk = string_from_chars(&hk);
    let mk = string_from_chars(&mk);
    assert(hk@ =~= hash_key());
    assert(mk@ =~= message_key());
    let h = string_field(text, hk.as_str());
    let m = string_field(text, mk.as_str());
    check_fields(h, m, digest)
}

/// A snapshot whose archive no longer has the digest recorded for it is never
/// restored: the check fails, and with an integrity error when the record is
/// otherwise complete.
pub proof fn lemma_altered_archive_refused(text: Seq<char>, recorded: Seq<char>, current: Seq<u8>)
    requires
        json_string_field(text, hash_key()) == Some(Some(recorded)),
        recorded != sha256_hex_of(current),
    ensures
        check_outcome(
            json_string_field(text, hash_key()),
            json_string_field(text, message_key()),
            sha256_hex_of(current),
        ) is Err,
        json_string_field(text, message_key()) matches Some(Some(_)) ==> check_outcome(
            json_string_field(text, hash_key()),
            json_string_field(text, message_key()),
            sha256_hex_of(current),
        ) == Err::<Seq<char>, RestoreError>(RestoreError::IntegrityMismatch),
{
}

} // verus!
