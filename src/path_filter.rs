//! Which paths are left alone by packing and by cleanup.
//!
//! Paths are `/`-separated strings. A path is ignored when it is absolute, or
//! when the path itself or one of its ancestors is the current directory (`.`,
//! possibly followed by separators) or is, character for character, an entry
//! of the ignore list. The ancestors are those of a path walked upwards one
//! component at a time: each ends just before the first separator of a run
//! that a further component follows, down to the empty path. So `build/` has
//! only itself and the empty path as ancestors, and `a//b` has `a//b`, `a`
//! and the empty path. There is no
//! globbing and no matching on single components: the entry `build` covers
//! `build` and `build/x`, never `src/build`.
use vstd::prelude::*;
use crate::text::{chars_of, prefix_is};

verus! {

/// A path that starts at the filesystem root.
pub open spec fn is_absolute(p: Seq<char>) -> bool {
    p.len() > 0 && p[0] == '/'
}

/// Some component (a character other than a separator) comes after position `k`.
pub open spec fn component_after(p: Seq<char>, k: int) -> bool {
    exists|j: int| k < j < p.len() && p[j] != '/'
}

/// The first `k` characters of `p` form an ancestor of `p` (or `p` itself):
/// `k` is 0, the whole length, or the position of the first separator of a
/// run that a further component follows.
pub open spec fn is_ancestor_cut(p: Seq<char>, k: int) -> bool {
    0 <= k <= p.len() && (k == 0 || k == p.len() || (p[k] == '/' && p[k - 1] != '/'
        && component_after(p, k)))
}

/// The marker of the current directory, `.`.
pub open spec fn current_dir() -> Seq<char> {
    seq!['.']
}

/// A path made of the current directory alone: `.` and then only separators.
pub open spec fn is_current_dir(a: Seq<char>) -> bool {
    a.len() > 0 && a[0] == '.' && forall|i: int| 1 <= i < a.len() ==> a[i] == '/'
}

/// An ancestor string that excludes everything below it.
pub open spec fn is_excluding(a: Seq<char>, ignore: Seq<Seq<char>>) -> bool {
    is_current_dir(a) || ignore.contains(a)
}

/// Whether `p` is left alone under the ignore list `ignore`.
pub open spec fn is_ignored(p: Seq<char>, ignore: Seq<Seq<char>>) -> bool {
    is_absolute(p) || exists|k: int|
        #![trigger p.subrange(0, k)]
        is_ancestor_cut(p, k) && is_excluding(p.subrange(0, k), ignore)
}

/// The ignore list as character sequences.
pub open spec fn ignore_view(ignore: Seq<String>) -> Seq<Seq<char>> {
    ignore.map_values(|e: String| e@)
}

fn chars_of_all(list: &Vec<String>) -> (r: Vec<Vec<char>>)
    ensures
        r@.map_values(|e: Vec<char>| e@) == ignore_view(list@),
{
    let mut out: Vec<Vec<char>> = Vec::new();
    let mut i: usize = 0;
    while i < list.len()
        invariant
            i <= list@.len(),
            out@.len() == i,
            forall|j: int| 0 <= j < i ==> #[trigger] out@[j]@ == list@[j]@,
        decreases list@.len() - i,
    {
        out.push(chars_of(list[i].as_str()));
        i = i + 1;
    }
    assert(out@.map_values(|e: Vec<char>| e@) =~= ignore_view(list@));
    out
}

/// Whether the first `k` characters of `p` are `.` followed only by separators.
fn is_current_dir_prefix(p: &Vec<char>, k: usize) -> (r: bool)
    requires
        k <= p@.len(),
    ensures
        r == is_current_dir(p@.subrange(0, k as int)),
{
    if k == 0 || p[0] != '.' {
        return false;
    }
    let mut i: usize = 1;
    while i < k
        invariant
            1 <= i <= k <= p@.len(),
            forall|m: int| 1 <= m < i ==> p@[m] == '/',
        decreases k - i,
    {
        if p[i] != '/' {
            assert(p@.subrange(0, k as int)[i as int] != '/');
            return false;
        }
        i = i + 1;
    }
    assert forall|m: int| 1 <= m < k implies #[trigger] p@.subrange(0, k as int)[m] == '/' by {
        assert(p@.subrange(0, k as int)[m] == p@[m]);
    }
    true
}

/// One past the last character of `p` that is not a separator (0 if none).
fn components_end(p: &Vec<char>) -> (t: usize)
    ensures
        t <= p@.len(),
        forall|j: int| t <= j < p@.len() ==> p@[j] == '/',
        t > 0 ==> p@[t - 1] != '/',
{
    let mut t: usize = p.len();
    while t > 0 && p[t - 1] == '/'
        invariant
            t <= p@.len(),
            forall|j: int| t <= j < p@.len() ==> p@[j] == '/',
        decreases t,
    {
        t = t - 1;
    }
    t
}

/// Whether the first `k` characters of `p` are the current directory or an entry of `ignore`.
fn excludes_prefix(p: &Vec<char>, k: usize, ignore: &Vec<Vec<char>>) -> (r: bool)
    requires
        k <= p@.len(),
    ensures
        r == is_excluding(p@.subrange(0, k as int), ignore@.map_values(|e: Vec<char>| e@)),
{
    let ghost iv = ignore@.map_values(|e: Vec<char>| e@);
    if is_current_dir_prefix(p, k) {
        return true;
    }
    let mut i: usize = 0;
    while i < ignore.len()
        invariant
            k <= p@.len(),
            i <= ignore@.len(),
            iv == ignore@.map_values(|e: Vec<char>| e@),
            !is_current_dir(p@.subrange(0, k as int)),
            forall|j: int| 0 <= j < i ==> iv[j] != p@.subrange(0, k as int),
        decreases ignore@.len() - i,
    {
        if prefix_is(p, k, &ignore[i]) {
            assert(iv[i as int] == p@.subrange(0, k as int));
            return true;
        }
        i = i + 1;
    }
    false
}

/// Decides whether `path` is left out of packing and of cleanup.
pub fn should_ignore(path: &str, ignore_list: &Vec<String>) -> (r: bool)
    ensures
        r == is_ignored(path@, ignore_view(ignore_list@)),
{
    let p = chars_of(path);
    let ignore = chars_of_all(ignore_list);
    let ghost iv = ignore_view(ignore_list@);
    if p.len() > 0 && p[0] == '/' {
        return true;
    }
    let t = components_end(&p);
    let mut k: usize = 0;
    while k < p.len()
        invariant
            t <= p@.len(),
            forall|j: int| t <= j < p@.len() ==> p@[j] == '/',
            t > 0 ==> p@[t - 1] != '/',
            p@ == path@,
            iv == ignore_view(ignore_list@),
            ignore@.map_values(|e: Vec<char>| e@) == iv,
            !is_absolute(p@),
            k <= p@.len(),
            forall|j: int|
                0 <= j < k && is_ancestor_cut(p@, j) ==> !is_excluding(
                    #[trigger] p@.subrange(0, j),
                    iv,
                ),
        decreases p@.len() - k,
    {
        proof {
            if k > 0 && t > k + 1 {
                assert(p@[t - 1] != '/');
                assert(component_after(p@, k as int));
            }
            if k > 0 && t <= k + 1 {
                assert(!component_after(p@, k as int));
            }
        }
        if k == 0 || (p[k] == '/' && p[k - 1] != '/' && t > k + 1) {
            if excludes_prefix(&p, k, &ignore) {
                assert(is_ancestor_cut(p@, k as int));
                assert(is_excluding(p@.subrange(0, k as int), iv));
                return true;
            }
        }
        k = k + 1;
    }
    let whole = excludes_prefix(&p, k, &ignore);
    assert(is_ancestor_cut(p@, k as int));
    if whole {
        assert(is_excluding(p@.subrange(0, k as int), iv));
    } else {
        assert forall|j: int| is_ancestor_cut(p@, j) implies !is_excluding(
            #[trigger] p@.subrange(0, j),
            iv,
        ) by {
            if j == k {
            }
        }
    }
    whole
}

/// An absolute path is always ignored, whatever the ignore list holds.
pub proof fn lemma_absolute_path_ignored(p: Seq<char>, ignore: Seq<Seq<char>>)
    requires
        is_absolute(p),
    ensures
        is_ignored(p, ignore),
{
}

/// An ignore entry excludes the path equal to it and every path below it
/// (one that continues with a separator and at least one more component).
pub proof fn lemma_entry_covers_descendants(e: Seq<char>, rest: Seq<char>, ignore: Seq<Seq<char>>)
    requires
        ignore.contains(e),
        rest.len() == 0 || (e.len() > 0 && e.last() != '/' && rest[0] == '/' && exists|j: int|
            0 < j < rest.len() && rest[j] != '/'),
    ensures
        is_ignored(e + rest, ignore),
{
    let p = e + rest;
    assert(p.subrange(0, e.len() as int) =~= e);
    if rest.len() > 0 {
        let j = choose|j: int| 0 < j < rest.len() && rest[j] != '/';
        assert(p[e.len() + j] == rest[j]);
        assert(component_after(p, e.len() as int));
        assert(p[e.len() - 1] == e.last());
    }
    assert(is_ancestor_cut(p, e.len() as int));
}

/// Matching is on whole ancestor strings: with the single entry `e`, a path
/// `d/e` one level down is not ignored (where `d` and `e` are plain names
/// and `d` is neither `e` nor `.`).
pub proof fn lemma_nested_entry_not_ignored(d: Seq<char>, e: Seq<char>)
    requires
        d.len() > 0,
        e.len() > 0,
        d != e,
        d != current_dir(),
        d[0] != '/',
        forall|i: int| 0 <= i < d.len() ==> d[i] != '/',
        forall|i: int| 0 <= i < e.len() ==> e[i] != '/',
    ensures
        !is_ignored(d + seq!['/'] + e, seq![e]),
{
    let p = d + seq!['/'] + e;
    let ignore = seq![e];
    assert(!is_absolute(p));
    assert forall|k: int| is_ancestor_cut(p, k) implies !is_excluding(
        #[trigger] p.subrange(0, k),
        ignore,
    ) by {
        if k == 0 {
            assert(p.subrange(0, k).len() == 0);
            assert(ignore[0].len() > 0);
        } else if k == p.len() {
            assert(p.subrange(0, k).len() > 1);
            assert(p.subrange(0, k)[k - 1] == e.last());
        } else {
            if k < d.len() {
                assert(p[k] == d[k]);
            } else if k > d.len() {
                assert(p[k] == e[k - d.len() - 1]);
            }
            assert(k == d.len());
            assert(p.subrange(0, k) =~= d);
            if is_current_dir(d) {
                if d.len() > 1 {
                    assert(d[1] == '/');
                }
                assert(d =~= current_dir());
            }
        }
        assert(!ignore.contains(p.subrange(0, k))) by {
            if ignore.contains(p.subrange(0, k)) {
                let j = choose|j: int| 0 <= j < ignore.len() && ignore[j] == p.subrange(0, k);
                assert(j == 0);
            }
        }
    }
}

} // verus!
