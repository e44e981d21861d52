//! A repository handle and the layout of the files under its root:
//! `HEAD`, `archives/<id>.tar` and `metadata/<id>.json`.
use vstd::prelude::*;
use crate::history::{decimal_of, next_id, next_snapshot_id, render_id, HistoryError};
use crate::text::{chars_of, push_all, string_from_chars};

verus! {

/// The directory, under the repository root, of the metadata records.
pub const SNAP_METADATA_PATH: &'static str = "metadata";

/// The directory, under the repository root, of the archives.
pub const SNAP_ARCHIVE_PATH: &'static str = "archives";

/// `name` placed under the directory `base`.
pub open spec fn join_path(base: Seq<char>, name: Seq<char>) -> Seq<char> {
    if base.len() == 0 || base.last() == '/' {
        base + name
    } else {
        base + seq!['/'] + name
    }
}

pub open spec fn head_name() -> Seq<char> {
    seq!['H', 'E', 'A', 'D']
}

pub open spec fn archives_name() -> Seq<char> {
    seq!['a', 'r', 'c', 'h', 'i', 'v', 'e', 's']
}

pub open spec fn metadata_name() -> Seq<char> {
    seq!['m', 'e', 't', 'a', 'd', 'a', 't', 'a']
}

pub open spec fn tar_suffix() -> Seq<char> {
    seq!['.', 't', 'a', 'r']
}

pub open spec fn json_suffix() -> Seq<char> {
    seq!['.', 'j', 's', 'o', 'n']
}

/// A repository, bound to the directory at its root path.
pub struct Repository {
    path: String,
}

impl View for Repository {
    type V = Seq<char>;

    closed spec fn view(&self) -> Seq<char> {
        self.path@
    }
}

fn join_exec(base: &Vec<char>, name: &Vec<char>) -> (r: Vec<char>)
    ensures
        r@ == join_path(base@, name@),
{
    let mut out: Vec<char> = Vec::new();
    push_all(&mut out, base);
    if base.len() > 0 && base[base.len() - 1] != '/' {
        out.push('/');
    }
    push_all(&mut out, name);
    assert(out@ =~= join_path(base@, name@));
    out
}

fn numbered(id: u32, suffix: &Vec<char>) -> (r: Vec<char>)
    ensures
        r@ == decimal_of(id as nat) + suffix@,
{
    let digits = render_id(id);
    let mut out = chars_of(digits.as_str());
    push_all(&mut out, suffix);
    out
}

impl Repository {
    /// A handle on the repository rooted at `path`; nothing is created.
    pub fn new(path: &str) -> (r: Repository)
        ensures
            r@ == path@,
    {
        Repository { path: path.to_owned() }
    }

    fn sub(&self, name: &Vec<char>) -> (r: Vec<char>)
        ensures
            r@ == join_path(self@, name@),
    {
        let root = chars_of(self.path.as_str());
        join_exec(&root, name)
    }

    /// The file that holds the history pointer.
    pub fn head_file(&self) -> (r: String)
        ensures
            r@ == join_path(self@, head_name()),
    {
        let name: Vec<char> = vec!['H', 'E', 'A', 'D'];
        assert(name@ =~= head_name());
        string_from_chars(&self.sub(&name))
    }

    /// The directory of the archives.
    pub fn archives_dir(&self) -> (r: String)
        ensures
            r@ == join_path(self@, archives_name()),
    {
        let name: Vec<char> = vec!['a', 'r', 'c', 'h', 'i', 'v', 'e', 's'];
        assert(name@ =~= archives_name());
        string_from_chars(&self.sub(&name))
    }

    /// The directory of the metadata records.
    pub fn metadata_dir(&self) -> (r: String)
        ensures
            r@ == join_path(self@, metadata_name()),
    {
        let name: Vec<char> = vec!['m', 'e', 't', 'a', 'd', 'a', 't', 'a'];
        assert(name@ =~= metadata_name());
        string_from_chars(&self.sub(&name))
    }

    /// The archive of snapshot `id`: `archives/<id>.tar`.
    pub fn archive_file(&self, id: u32) -> (r: String)
        ensures
            r@ == join_path(join_path(self@, archives_name()), decimal_of(id as nat) + tar_suffix()),
    {
        let dir: Vec<char> = vec!['a', 'r', 'c', 'h', 'i', 'v', 'e', 's'];
        assert(dir@ =~= archives_name());
        let suffix: Vec<char> = vec!['.', 't', 'a', 'r'];
        assert(suffix@ =~= tar_suffix());
        let file = numbered(id, &suffix);
        string_from_chars(&join_exec(&self.sub(&dir), &file))
    }

    /// The metadata record of snapshot `id`: `metadata/<id>.json`.
    pub fn metadata_file(&self, id: u32) -> (r: String)
        ensures
            r@ == join_path(join_path(self@, metadata_name()), decimal_of(id as nat) + json_suffix()),
    {
        let dir: Vec<char> = vec!['m', 'e', 't', 'a', 'd', 'a', 't', 'a'];
        assert(dir@ =~= metadata_name());
        let suffix: Vec<char> = vec!['.', 'j', 's', 'o', 'n'];
        assert(suffix@ =~= json_suffix());
        let file = numbered(id, &suffix);
        string_from_chars(&join_exec(&self.sub(&dir), &file))
    }
}

/// Where the next snapshot goes and what `HEAD` then holds.
pub struct SavePlan {
    /// The id of the new snapshot.
    pub id: u32,
    /// The file its archive is written to.
    pub archive: String,
    /// The file its metadata record is written to.
    pub metadata: String,
    /// The text written to `HEAD` once both files are in place.
    pub head: String,
}

impl Repository {
    /// The text of `HEAD` in a freshly initialised repository: `0`.
    pub fn initial_head() -> (r: String)
        ensures
            r@ == decimal_of(0),
    {
        render_id(0)
    }

    /// Plans a save from the current text of `HEAD`: the next id, its archive
    /// and metadata files, and the new text of `HEAD`, which names that id.
    pub fn plan_save(&self, head: &str) -> (r: Result<SavePlan, HistoryError>)
        ensures
            match r {
                Ok(p) => {
                    &&& next_id(head@) == Ok::<u32, HistoryError>(p.id)
                    &&& p.archive@ == join_path(join_path(self@, archives_name()), decimal_of(p.id as nat) + tar_suffix())
                    &&& p.metadata@ == join_path(join_path(self@, metadata_name()), decimal_of(p.id as nat) + json_suffix())
                    &&& p.head@ == decimal_of(p.id as nat)
                },
                Err(e) => next_id(head@) == Err::<u32, HistoryError>(e),
            },
    {
        match next_snapshot_id(head) {
            Ok(id) => Ok(SavePlan {
                id,
                archive: self.archive_file(id),
                metadata: self.metadata_file(id),
                head: render_id(id),
            }),
            Err(e) => Err(e),
        }
    }
}

/// Distinct snapshots have distinct archive and metadata files: one of each
/// per id.
pub proof fn lemma_files_per_id_distinct(root: Seq<char>, a: u32, b: u32)
    requires
        a != b,
    ensures
        join_path(join_path(root, archives_name()), decimal_of(a as nat) + tar_suffix())
            != join_path(join_path(root, archives_name()), decimal_of(b as nat) + tar_suffix()),
        join_path(join_path(root, metadata_name()), decimal_of(a as nat) + json_suffix())
            != join_path(join_path(root, metadata_name()), decimal_of(b as nat) + json_suffix()),
{
    crate::history::lemma_head_round_trip(a);
    crate::history::lemma_head_round_trip(b);
    lemma_decimal_name_injective(root, archives_name(), tar_suffix(), a, b);
    lemma_decimal_name_injective(root, metadata_name(), json_suffix(), a, b);
}

proof fn lemma_decimal_name_injective(root: Seq<char>, dir: Seq<char>, suffix: Seq<char>, a: u32, b: u32)
    requires
        a != b,
        crate::history::head_value(decimal_of(a as nat)) == Some(a),
        crate::history::head_value(decimal_of(b as nat)) == Some(b),
    ensures
        join_path(join_path(root, dir), decimal_of(a as nat) + suffix)
            != join_path(join_path(root, dir), decimal_of(b as nat) + suffix),
{
    let base = join_path(root, dir);
    let x = decimal_of(a as nat) + suffix;
    let y = decimal_of(b as nat) + suffix;
    if join_path(base, x) == join_path(base, y) {
        let n = (join_path(base, x).len() - x.len()) as int;
        assert(join_path(base, x).subrange(n, join_path(base, x).len() as int) =~= x);
        assert(join_path(base, y).subrange(n, join_path(base, y).len() as int) =~= y);
        assert(x == y);
        let k = decimal_of(a as nat).len() as int;
        assert(x.subrange(0, k) =~= decimal_of(a as nat));
        assert(y.subrange(0, k) =~= decimal_of(b as nat));
    }
}

} // verus!
