//! What packing puts into an archive and what cleanup removes before a
//! restore, decided from a listing of the tree that the caller walked.
//!
//! Every listed entry is named by its path inside the walked root: the walked
//! path with the root and the separator after it taken off. That name is what
//! the archive stores and what the ignore list is matched against. Nothing is
//! ever named under an absolute root, so such a tree is neither packed nor
//! cleaned.
use vstd::prelude::*;
use crate::path_filter::{
    component_after, current_dir, is_absolute, is_ignored, ignore_view, lemma_entry_covers_descendants,
    lemma_nested_entry_not_ignored, should_ignore,
};
use crate::text::{chars_of, prefix_is, string_from_chars};
use crate::record::{check_record, check_outcome, json_string_field, hash_key, message_key, RestoreError};

verus! {

/// The kind of a filesystem entry, as seen without following links.
#[derive(Debug, PartialEq, Eq, Structural, Clone, Copy)]
pub enum EntryKind {
    File,
    Directory,
    Symlink,
}

/// One entry of a tree listing: its walked path and its kind.
pub struct Entry {
    pub path: String,
    pub kind: EntryKind,
}

impl View for Entry {
    type V = (Seq<char>, EntryKind);

    open spec fn view(&self) -> (Seq<char>, EntryKind) {
        (self.path@, self.kind)
    }
}

pub open spec fn entries_view(es: Seq<Entry>) -> Seq<(Seq<char>, EntryKind)> {
    es.map_values(|e: Entry| e@)
}

/// One entry to pack: where it is read from, the name it is stored under,
/// and its kind.
pub struct PackItem {
    pub source: String,
    pub name: String,
    pub kind: EntryKind,
}

impl View for PackItem {
    type V = (Seq<char>, Seq<char>, EntryKind);

    open spec fn view(&self) -> (Seq<char>, Seq<char>, EntryKind) {
        (self.source@, self.name@, self.kind)
    }
}

pub open spec fn items_view(es: Seq<PackItem>) -> Seq<(Seq<char>, Seq<char>, EntryKind)> {
    es.map_values(|e: PackItem| e@)
}

/// `p` lies inside the directory `d`.
pub open spec fn is_below(p: Seq<char>, d: Seq<char>) -> bool {
    p.len() > d.len() && p.subrange(0, d.len() as int) == d && p[d.len() as int] == '/'
}

/// The name of the walked path `p` inside the tree rooted at `root`: `p` with
/// `root` and the separator after it removed. None when `p` is not strictly
/// inside `root`, and for an empty or absolute root.
pub open spec fn name_in_root(root: Seq<char>, p: Seq<char>) -> Option<Seq<char>> {
    if root.len() == 0 || is_absolute(root) {
        None
    } else if root.last() == '/' {
        if p.len() > root.len() && p.subrange(0, root.len() as int) == root {
            Some(p.subrange(root.len() as int, p.len() as int))
        } else {
            None
        }
    } else if is_below(p, root) {
        Some(p.subrange(root.len() as int + 1, p.len() as int))
    } else {
        None
    }
}

/// What packing the listing `es` of the tree at `root` stores, in walk order:
/// each entry inside the root whose name is not ignored, with its walked path,
/// its name and its kind.
pub open spec fn packed(
    root: Seq<char>,
    es: Seq<(Seq<char>, EntryKind)>,
    ignore: Seq<Seq<char>>,
) -> Seq<(Seq<char>, Seq<char>, EntryKind)>
    decreases es.len(),
{
    if es.len() == 0 {
        Seq::empty()
    } else {
        let rest = packed(root, es.drop_last(), ignore);
        match name_in_root(root, es.last().0) {
            Some(q) => if is_ignored(q, ignore) {
                rest
            } else {
                rest.push((es.last().0, q, es.last().1))
            },
            None => rest,
        }
    }
}

/// The walked path `p` is an ignored entry inside the directory named `d`.
pub open spec fn ignored_inside(root: Seq<char>, p: Seq<char>, d: Seq<char>, ignore: Seq<Seq<char>>) -> bool {
    match name_in_root(root, p) {
        Some(n) => is_below(n, d) && is_ignored(n, ignore),
        None => false,
    }
}

/// Some entry of the listing is ignored and lies inside the directory named `d`.
pub open spec fn holds_ignored(
    root: Seq<char>,
    es: Seq<(Seq<char>, EntryKind)>,
    d: Seq<char>,
    ignore: Seq<Seq<char>>,
) -> bool {
    exists|j: int| 0 <= j < es.len() && #[trigger] ignored_inside(root, es[j].0, d, ignore)
}

/// An entry that cleanup removes: inside the root, not ignored, and, for a
/// directory, with nothing ignored inside it.
pub open spec fn is_removed(
    root: Seq<char>,
    all: Seq<(Seq<char>, EntryKind)>,
    e: (Seq<char>, EntryKind),
    ignore: Seq<Seq<char>>,
) -> bool {
    match name_in_root(root, e.0) {
        Some(q) => !is_ignored(q, ignore) && (e.1 == EntryKind::Directory ==> !holds_ignored(
            root,
            all,
            q,
            ignore,
        )),
        None => false,
    }
}

/// The entries of `es` that cleanup removes, in listing order.
pub open spec fn removed(
    root: Seq<char>,
    all: Seq<(Seq<char>, EntryKind)>,
    es: Seq<(Seq<char>, EntryKind)>,
    ignore: Seq<Seq<char>>,
) -> Seq<(Seq<char>, EntryKind)>
    decreases es.len(),
{
    if es.len() == 0 {
        Seq::empty()
    } else {
        let rest = removed(root, all, es.drop_last(), ignore);
        if is_removed(root, all, es.last(), ignore) {
            rest.push(es.last())
        } else {
            rest
        }
    }
}

pub open spec fn opt_view(o: Option<Vec<char>>) -> Option<Seq<char>> {
    match o {
        Some(v) => Some(v@),
        None => None,
    }
}

fn suffix_from(p: &Vec<char>, k: usize) -> (r: Vec<char>)
    requires
        k <= p@.len(),
    ensures
        r@ == p@.subrange(k as int, p@.len() as int),
{
    let mut out: Vec<char> = Vec::new();
    let mut i: usize = k;
    while i < p.len()
        invariant
            k <= i <= p@.len(),
            out@ == p@.subrange(k as int, i as int),
        decreases p@.len() - i,
    {
        out.push(p[i]);
        i = i + 1;
        assert(out@ =~= p@.subrange(k as int, i as int));
    }
    out
}

fn name_of(root: &Vec<char>, p: &Vec<char>) -> (r: Option<Vec<char>>)
    ensures
        opt_view(r) == name_in_root(root@, p@),
{
    if root.len() == 0 || root[0] == '/' {
        return None;
    }
    let n = root.len();
    if root[n - 1] == '/' {
        if p.len() > n && prefix_is(p, n, root) {
            Some(suffix_from(p, n))
        } else {
            None
        }
    } else {
        if p.len() > n && p[n] == '/' && prefix_is(p, n, root) {
            Some(suffix_from(p, n + 1))
        } else {
            None
        }
    }
}

fn names_of(root: &Vec<char>, entries: &Vec<Entry>) -> (r: Vec<Option<Vec<char>>>)
    ensures
        r@.len() == entries@.len(),
        forall|j: int| 0 <= j < r@.len() ==> #[trigger] opt_view(r@[j]) == name_in_root(root@, entries@[j].path@),
{
    let mut out: Vec<Option<Vec<char>>> = Vec::new();
    let mut i: usize = 0;
    while i < entries.len()
        invariant
            i <= entries@.len(),
            out@.len() == i,
            forall|j: int| 0 <= j < i ==> #[trigger] opt_view(out@[j]) == name_in_root(root@, entries@[j].path@),
        decreases entries@.len() - i,
    {
        let p = chars_of(entries[i].path.as_str());
        out.push(name_of(root, &p));
        i = i + 1;
    }
    out
}

/// Decides what packing the tree at `root` stores: each listed entry inside
/// the root whose name there is not ignored, stored under that name, in the
/// order given. The caller walks the tree top-down, so parents come before
/// their children.
pub fn archive_plan(root: &str, entries: &Vec<Entry>, ignore_list: &Vec<String>) -> (r: Vec<PackItem>)
    ensures
        items_view(r@) == packed(root@, entries_view(entries@), ignore_view(ignore_list@)),
{
    let ghost ign = ignore_view(ignore_list@);
    let root_chars = chars_of(root);
    let mut out: Vec<PackItem> = Vec::new();
    let mut i: usize = 0;
    while i < entries.len()
        invariant
            i <= entries@.len(),
            root_chars@ == root@,
            ign == ignore_view(ignore_list@),
            items_view(out@) == packed(root@, entries_view(entries@.subrange(0, i as int)), ign),
        decreases entries@.len() - i,
    {
        let ghost before = entries_view(entries@.subrange(0, i as int));
        let ghost now = entries_view(entries@.subrange(0, i + 1));
        assert(now.drop_last() =~= before);
        assert(now.last() == entries@[i as int]@);
        let p = chars_of(entries[i].path.as_str());
        match name_of(&root_chars, &p) {
            Some(q) => {
                let name = string_from_chars(&q);
                if !should_ignore(name.as_str(), ignore_list) {
                    out.push(PackItem { source: entries[i].path.clone(), name, kind: entries[i].kind });
                    assert(items_view(out@) =~= packed(root@, now, ign));
                }
            },
            None => {},
        }
        i = i + 1;
    }
    assert(entries@.subrange(0, i as int) =~= entries@);
    out
}

fn is_below_exec(p: &Vec<char>, d: &Vec<char>) -> (r: bool)
    ensures
        r == is_below(p@, d@),
{
    if p.len() <= d.len() {
        return false;
    }
    if p[d.len()] != '/' {
        return false;
    }
    prefix_is(p, d.len(), d)
}

/// Decides what cleanup removes from the tree at `root` before a restore. The
/// listing comes contents first (children before their directory); each entry
/// inside the root whose name is not ignored is removed, except a directory
/// that still holds an ignored entry. The order is kept, so directories are
/// emptied before they go.
pub fn removal_plan(root: &str, entries: &Vec<Entry>, ignore_list: &Vec<String>) -> (r: Vec<Entry>)
    ensures
        entries_view(r@) == removed(root@, entries_view(entries@), entries_view(entries@), ignore_view(ignore_list@)),
{
    let ghost ign = ignore_view(ignore_list@);
    let ghost all = entries_view(entries@);
    let root_chars = chars_of(root);
    let names = names_of(&root_chars, entries);
    let mut ignored: Vec<bool> = Vec::new();
    let mut k: usize = 0;
    while k < names.len()
        invariant
            k <= names@.len(),
            names@.len() == entries@.len(),
            ignored@.len() == k,
            root_chars@ == root@,
            ign == ignore_view(ignore_list@),
            forall|j: int| 0 <= j < names@.len() ==> #[trigger] opt_view(names@[j]) == name_in_root(root@, entries@[j].path@),
            forall|j: int| 0 <= j < k ==> #[trigger] ignored@[j] == (names@[j] matches Some(n) && is_ignored(n@, ign)),
        decreases names@.len() - k,
    {
        let flag = match &names[k] {
            Some(n) => {
                let s = string_from_chars(n);
                should_ignore(s.as_str(), ignore_list)
            },
            None => false,
        };
        ignored.push(flag);
        k = k + 1;
    }
    let mut out: Vec<Entry> = Vec::new();
    let mut i: usize = 0;
    while i < entries.len()
        invariant
            i <= entries@.len(),
            names@.len() == entries@.len(),
            ignored@.len() == entries@.len(),
            ign == ignore_view(ignore_list@),
            all == entries_view(entries@),
            forall|j: int| 0 <= j < names@.len() ==> #[trigger] opt_view(names@[j]) == name_in_root(root@, entries@[j].path@),
            forall|j: int| 0 <= j < names@.len() ==> #[trigger] ignored@[j] == (names@[j] matches Some(n) && is_ignored(n@, ign)),
            entries_view(out@) == removed(root@, all, entries_view(entries@.subrange(0, i as int)), ign),
        decreases entries@.len() - i,
    {
        let ghost before = entries_view(entries@.subrange(0, i as int));
        let ghost now = entries_view(entries@.subrange(0, i + 1));
        assert(now.drop_last() =~= before);
        assert(now.last() == entries@[i as int]@);
        assert(all[i as int] == entries@[i as int]@);
        assert(opt_view(names@[i as int]) == name_in_root(root@, entries@[i as int].path@));
        let keep = match &names[i] {
            None => false,
            Some(q) => {
                let mut keep = !ignored[i];
                if keep && entries[i].kind == EntryKind::Directory {
                    let mut j: usize = 0;
                    while j < names.len()
                        invariant
                            j <= names@.len(),
                            i < entries@.len(),
                            names@.len() == entries@.len(),
                            ignored@.len() == entries@.len(),
                            all == entries_view(entries@),
                            forall|m: int| 0 <= m < names@.len() ==> #[trigger] opt_view(names@[m]) == name_in_root(root@, entries@[m].path@),
                            forall|m: int| 0 <= m < names@.len() ==> #[trigger] ignored@[m] == (names@[m] matches Some(n) && is_ignored(n@, ign)),
                            keep == forall|m: int| 0 <= m < j ==> !#[trigger] ignored_inside(root@, all[m].0, q@, ign),
                        decreases names@.len() - j,
                    {
                        assert(all[j as int].0 == entries@[j as int].path@);
                        assert(opt_view(names@[j as int]) == name_in_root(root@, entries@[j as int].path@));
                        let ghost was = keep;
                        let hit = match &names[j] {
                            Some(n) => {
                                assert(ignored[j as int] == is_ignored(n@, ign));
                                is_below_exec(n, q) && ignored[j]
                            },
                            None => false,
                        };
                        assert(hit == ignored_inside(root@, all[j as int].0, q@, ign));
                        if hit {
                            keep = false;
                        }
                        assert(keep == forall|m: int| 0 <= m < j + 1 ==> !#[trigger] ignored_inside(root@, all[m].0, q@, ign)) by {
                            if was && !hit {
                                assert forall|m: int| 0 <= m < j + 1 implies !#[trigger] ignored_inside(root@, all[m].0, q@, ign) by {
                                    if m < j {
                                    }
                                }
                            }
                        }
                        j = j + 1;
                    }
                    assert(keep == !holds_ignored(root@, all, q@, ign));
                }
                keep
            },
        };
        if keep {
            out.push(Entry { path: entries[i].path.clone(), kind: entries[i].kind });
        }
        assert(entries_view(out@) =~= removed(root@, all, now, ign));
        i = i + 1;
    }
    assert(entries@.subrange(0, i as int) =~= entries@);
    out
}

/// Packing stores exactly the listed entries inside the root whose names
/// there are not ignored (each under its name, with its kind), and nothing
/// else.
pub proof fn lemma_packed_exactly_unignored(
    root: Seq<char>,
    es: Seq<(Seq<char>, EntryKind)>,
    ignore: Seq<Seq<char>>,
)
    ensures
        forall|x: (Seq<char>, Seq<char>, EntryKind)|
            packed(root, es, ignore).contains(x) <==> (!is_ignored(x.1, ignore) && exists|i: int|
                0 <= i < es.len() && #[trigger] es[i] == (x.0, x.2) && name_in_root(root, x.0) == Some(x.1)),
    decreases es.len(),
{
    if es.len() > 0 {
        let init = es.drop_last();
        lemma_packed_exactly_unignored(root, init, ignore);
        let rest = packed(root, init, ignore);
        let whole = packed(root, es, ignore);
        let l = es.last();
        assert forall|x: (Seq<char>, Seq<char>, EntryKind)|
            whole.contains(x) <==> (!is_ignored(x.1, ignore) && exists|i: int|
                0 <= i < es.len() && #[trigger] es[i] == (x.0, x.2) && name_in_root(root, x.0) == Some(x.1)) by {
            if whole.contains(x) {
                if rest.contains(x) {
                    let i = choose|i: int| 0 <= i < init.len() && #[trigger] init[i] == (x.0, x.2) && name_in_root(root, x.0) == Some(x.1);
                    assert(es[i] == init[i]);
                } else {
                    assert(x == (l.0, name_in_root(root, l.0)->0, l.1));
                    assert(es[es.len() - 1] == l);
                }
            }
            if !is_ignored(x.1, ignore) && exists|i: int|
                0 <= i < es.len() && #[trigger] es[i] == (x.0, x.2) && name_in_root(root, x.0) == Some(x.1) {
                let i = choose|i: int| 0 <= i < es.len() && #[trigger] es[i] == (x.0, x.2) && name_in_root(root, x.0) == Some(x.1);
                if i < es.len() - 1 {
                    assert(init[i] == es[i]);
                    assert(rest.contains(x));
                    let k = choose|k: int| 0 <= k < rest.len() && rest[k] == x;
                    assert(whole == rest || whole == rest.push((l.0, name_in_root(root, l.0)->0, l.1)));
                    assert(whole[k] == x);
                } else {
                    assert(l == es[i]);
                    assert(whole == rest.push(x));
                    assert(whole[rest.len() as int] == x);
                }
            }
        }
    }
}

/// An entry walked at `root/q` is named `q` inside the root `root`, for a
/// relative root without a trailing separator.
pub proof fn lemma_name_under_root(root: Seq<char>, q: Seq<char>)
    requires
        root.len() > 0,
        !is_absolute(root),
        root.last() != '/',
        q.len() > 0,
    ensures
        name_in_root(root, root + seq!['/'] + q) == Some(q),
{
    let p = root + seq!['/'] + q;
    assert(p.subrange(0, root.len() as int) =~= root);
    assert(p.subrange(root.len() as int + 1, p.len() as int) =~= q);
}

/// Packing any listing with the single ignore entry `e` (a plain name) stores
/// no entry named `e`, and none named below `e`.
pub proof fn lemma_packing_drops_entry_and_below(
    root: Seq<char>,
    es: Seq<(Seq<char>, EntryKind)>,
    e: Seq<char>,
)
    requires
        e.len() > 0,
        forall|i: int| 0 <= i < e.len() ==> e[i] != '/',
    ensures
        forall|x: (Seq<char>, Seq<char>, EntryKind)| #[trigger] packed(root, es, seq![e]).contains(x) ==> {
            &&& x.1 != e
            &&& !(x.1.len() > e.len() && x.1.subrange(0, e.len() as int) == e && x.1[e.len() as int] == '/'
                && component_after(x.1, e.len() as int))
        },
{
    let ign = seq![e];
    assert(ign.contains(e)) by {
        assert(ign[0] == e);
    }
    assert(e.last() == e[e.len() - 1]);
    lemma_packed_exactly_unignored(root, es, ign);
    assert forall|x: (Seq<char>, Seq<char>, EntryKind)| #[trigger] packed(root, es, ign).contains(x) implies {
        &&& x.1 != e
        &&& !(x.1.len() > e.len() && x.1.subrange(0, e.len() as int) == e && x.1[e.len() as int] == '/'
            && component_after(x.1, e.len() as int))
    } by {
        assert(!is_ignored(x.1, ign));
        if x.1 == e {
            lemma_entry_covers_descendants(e, Seq::empty(), ign);
            assert(e + Seq::<char>::empty() =~= e);
        }
        if x.1.len() > e.len() && x.1.subrange(0, e.len() as int) == e && x.1[e.len() as int] == '/'
            && component_after(x.1, e.len() as int) {
            let rest = x.1.subrange(e.len() as int, x.1.len() as int);
            let j = choose|j: int| e.len() < j < x.1.len() && x.1[j] != '/';
            assert(rest[j - e.len()] == x.1[j]);
            lemma_entry_covers_descendants(e, rest, ign);
            assert(e + rest =~= x.1);
        }
    }
}

/// Packing the current directory `.` with the single ignore entry `e`: a
/// listed entry `./d/e` one level down is stored under the name `d/e`
/// (where `d` and `e` are plain names and `d` is neither `e` nor `.`).
pub proof fn lemma_packing_keeps_nested_entry(
    es: Seq<(Seq<char>, EntryKind)>,
    i: int,
    d: Seq<char>,
    e: Seq<char>,
)
    requires
        0 <= i < es.len(),
        es[i].0 == current_dir() + seq!['/'] + (d + seq!['/'] + e),
        d.len() > 0,
        e.len() > 0,
        d != e,
        d != current_dir(),
        d[0] != '/',
        forall|k: int| 0 <= k < d.len() ==> d[k] != '/',
        forall|k: int| 0 <= k < e.len() ==> e[k] != '/',
    ensures
        packed(current_dir(), es, seq![e]).contains((es[i].0, d + seq!['/'] + e, es[i].1)),
{
    let ign = seq![e];
    lemma_name_under_root(current_dir(), d + seq!['/'] + e);
    lemma_nested_entry_not_ignored(d, e);
    lemma_packed_exactly_unignored(current_dir(), es, ign);
    let x = (es[i].0, d + seq!['/'] + e, es[i].1);
    assert(es[i] == (x.0, x.2));
}

/// Nothing under an absolute root, and no absolute walked path, is ever
/// packed or removed.
pub proof fn lemma_absolute_never_touched(
    root: Seq<char>,
    all: Seq<(Seq<char>, EntryKind)>,
    es: Seq<(Seq<char>, EntryKind)>,
    ignore: Seq<Seq<char>>,
)
    requires
        is_absolute(root) || forall|i: int| 0 <= i < es.len() ==> #[trigger] is_absolute(es[i].0),
    ensures
        packed(root, es, ignore).len() == 0,
        removed(root, all, es, ignore).len() == 0,
    decreases es.len(),
{
    if es.len() > 0 {
        let init = es.drop_last();
        assert forall|i: int| 0 <= i < init.len() && !is_absolute(root) implies #[trigger] is_absolute(init[i].0) by {
            assert(init[i] == es[i]);
            assert(is_absolute(es[i].0));
        }
        lemma_absolute_never_touched(root, all, init, ignore);
        if !is_absolute(root) {
            assert(is_absolute(es[es.len() - 1].0));
            let p = es.last().0;
            if root.len() > 0 && p.len() > root.len() && p.subrange(0, root.len() as int) == root {
                assert(p[0] == root[0]);
            }
        }
        assert(name_in_root(root, es.last().0) is None);
    }
}

/// What a restore does once the archive has passed its check: the stored
/// message to hand back, and the entries of the destination to remove before
/// the archive is unpacked over it.
pub struct RestorePlan {
    pub message: String,
    pub removals: Vec<Entry>,
}

/// Plans a restore into `destination` from the snapshot's metadata text, the
/// digest of its archive as it is now, a contents-first listing of the
/// destination and the ignore list. The record is checked first: when the
/// check fails nothing is planned, so the destination is left as it is.
pub fn plan_restore(
    metadata: &str,
    digest: &str,
    destination: &str,
    listing: &Vec<Entry>,
    ignore_list: &Vec<String>,
) -> (r: Result<RestorePlan, RestoreError>)
    ensures
        match r {
            Ok(p) => check_outcome(
                json_string_field(metadata@, hash_key()),
                json_string_field(metadata@, message_key()),
                digest@,
            ) == Ok::<Seq<char>, RestoreError>(p.message@) && entries_view(p.removals@) == removed(
                destination@,
                entries_view(listing@),
                entries_view(listing@),
                ignore_view(ignore_list@),
            ),
            Err(e) => check_outcome(
                json_string_field(metadata@, hash_key()),
                json_string_field(metadata@, message_key()),
                digest@,
            ) == Err::<Seq<char>, RestoreError>(e),
        },
{
    match check_record(metadata, digest) {
        Ok(message) => Ok(RestorePlan { message, removals: removal_plan(destination, listing, ignore_list) }),
        Err(e) => Err(e),
    }
}

} // verus!
