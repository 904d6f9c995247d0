use vstd::prelude::*;

use crate::builder::{build_error, built_entry, built_from, first_at, is_manifest_entry, records_walk, BuildError};
use crate::index::{keys_of, lookup, IndexEntryV1, IndexPath, INDEX_FILE_NAME};
use crate::scan::{
    absent, deleted_at, deleted_paths, deleted_upto, entry_outcome, walk_changes, FsKind, Status,
    WalkEntry,
};

verus! {

/// No two entries of the walk are at the same path.
pub open spec fn distinct_paths(es: Seq<WalkEntry>) -> bool {
    forall|i: int, j: int|
        0 <= i < es.len() && 0 <= j < es.len() && i != j && es[i].path is Some && es[j].path is Some
            ==> (#[trigger] es[i]).path->Some_0@ != (#[trigger] es[j]).path->Some_0@
}

/// A freshly installed package: `recs` is the index built from the walk `es`
/// (which may hold the manifest file), whose paths are distinct as in any walk,
/// and which holds no symbolic link.
pub open spec fn fresh_package(recs: Seq<(IndexPath, IndexEntryV1)>, es: Seq<WalkEntry>) -> bool {
    &&& forall|k: int| 0 <= k < es.len() ==> build_error(#[trigger] es[k]) is None
    &&& records_walk(recs, es)
    &&& distinct_paths(es)
    &&& forall|k: int| 0 <= k < es.len() ==> !((#[trigger] es[k]).kind is Symlink)
}

/// The scan reports nothing of `e` and goes on below it.
pub open spec fn clean(recs: Seq<(IndexPath, IndexEntryV1)>, e: WalkEntry) -> bool {
    entry_outcome(recs, e) == (None::<Status>, false)
}

/// Some entry of the walk is at `q`.
pub open spec fn walk_has(es: Seq<WalkEntry>, q: Seq<Seq<char>>) -> bool {
    exists|i: int| 0 <= i < es.len() && ((#[trigger] es[i]).path matches Some(p) && p@ == q)
}

/// `q` is `d` or lies below it.
pub open spec fn under(d: Seq<Seq<char>>, q: Seq<Seq<char>>) -> bool {
    d.len() <= q.len() && q.subrange(0, d.len() as int) == d
}

proof fn lemma_lookup_unique(recs: Seq<(IndexPath, IndexEntryV1)>, k: int, p: Seq<Seq<char>>)
    requires
        0 <= k < recs.len(),
        recs[k].0@ == p,
        forall|j: int| 0 <= j < recs.len() && j != k ==> (#[trigger] recs[j]).0@ != p,
    ensures
        lookup(recs, p) == Some(recs[k].1),
    decreases recs.len(),
{
    if k > 0 {
        let rest = recs.drop_first();
        assert(recs[0].0@ != p);
        assert forall|j: int| 0 <= j < rest.len() && j != k - 1 implies (#[trigger] rest[j]).0@ != p by {
            assert(rest[j] == recs[j + 1]);
        }
        lemma_lookup_unique(rest, k - 1, p);
    }
}

/// The record of a walk entry other than the manifest file: the one that the
/// scan looks up, built from that very entry.
proof fn lemma_record_of(recs: Seq<(IndexPath, IndexEntryV1)>, es: Seq<WalkEntry>, k: int) -> (j: int)
    requires
        fresh_package(recs, es),
        0 <= k < es.len(),
        !is_manifest_entry(es[k]),
    ensures
        0 <= j < recs.len(),
        es[k].path matches Some(p) && recs[j].0@ == p@,
        built_entry(es[k].kind) == Ok::<IndexEntryV1, BuildError>(recs[j].1),
        lookup(recs, es[k].path->Some_0@) == Some(recs[j].1),
{
    assert(build_error(es[k]) is None);
    let p = es[k].path->Some_0@;
    let j = choose|j: int| 0 <= j < recs.len() && (#[trigger] recs[j]).0@ == p;
    assert(built_from(es, es.len() as int, recs[j].0@, recs[j].1));
    let m = choose|m: int| first_at(es, es.len() as int, m, recs[j].0@) && built_entry(es[m].kind) == Ok::<IndexEntryV1, BuildError>(recs[j].1);
    if m != k {
        assert(es[m].path->Some_0@ != es[k].path->Some_0@);
    }
    assert forall|i: int| 0 <= i < recs.len() && i != j implies (#[trigger] recs[i]).0@ != p by {}
    lemma_lookup_unique(recs, j, p);
    j
}

proof fn lemma_fresh_entry_clean(recs: Seq<(IndexPath, IndexEntryV1)>, es: Seq<WalkEntry>, k: int)
    requires
        fresh_package(recs, es),
        0 <= k < es.len(),
    ensures
        clean(recs, es[k]),
{
    assert(build_error(es[k]) is None);
    if !is_manifest_entry(es[k]) {
        let j = lemma_record_of(recs, es, k);
        assert(!(es[k].kind is Symlink));
    }
}

proof fn lemma_clean_walk(recs: Seq<(IndexPath, IndexEntryV1)>, es: Seq<WalkEntry>, j: int)
    requires
        0 <= j,
        forall|i: int| j <= i < es.len() ==> clean(recs, #[trigger] es[i]),
    ensures
        walk_changes(recs, es, j, None) == Seq::<(usize, Status)>::empty(),
    decreases es.len() - j,
{
    if j < es.len() {
        assert(clean(recs, es[j]));
        lemma_clean_walk(recs, es, j + 1);
        assert(walk_changes(recs, es, j, None) =~= Seq::<(usize, Status)>::empty());
    }
}

proof fn lemma_walk_one(
    recs: Seq<(IndexPath, IndexEntryV1)>,
    es: Seq<WalkEntry>,
    k: int,
    s: Status,
    j: int,
)
    requires
        0 <= j,
        0 <= k < es.len(),
        entry_outcome(recs, es[k]) == (Some(s), false),
        forall|i: int| j <= i < es.len() && i != k ==> clean(recs, #[trigger] es[i]),
    ensures
        walk_changes(recs, es, j, None) == (if j <= k {
            seq![(k as usize, s)]
        } else {
            Seq::<(usize, Status)>::empty()
        }),
    decreases es.len() - j,
{
    if j < es.len() {
        lemma_walk_one(recs, es, k, s, j + 1);
        if j == k {
            lemma_clean_walk(recs, es, j + 1);
            assert(walk_changes(recs, es, j, None) =~= seq![(k as usize, s)]);
        } else {
            assert(clean(recs, es[j]));
            assert(walk_changes(recs, es, j, None) =~= walk_changes(recs, es, j + 1, None));
        }
    }
}

proof fn lemma_none_deleted(recs: Seq<(IndexPath, IndexEntryV1)>, es: Seq<WalkEntry>, n: int)
    requires
        n <= keys_of(recs).len(),
        forall|j: int| 0 <= j < n ==> !absent(es, #[trigger] keys_of(recs)[j]),
    ensures
        deleted_upto(recs, es, n) == Seq::<Seq<Seq<char>>>::empty(),
    decreases n,
{
    if n > 0 {
        lemma_none_deleted(recs, es, n - 1);
        assert(!absent(es, keys_of(recs)[n - 1]));
        assert(deleted_upto(recs, es, n) =~= Seq::<Seq<Seq<char>>>::empty());
    }
}

proof fn lemma_one_deleted(
    recs: Seq<(IndexPath, IndexEntryV1)>,
    es: Seq<WalkEntry>,
    k: int,
    n: int,
)
    requires
        0 <= k < keys_of(recs).len(),
        n <= keys_of(recs).len(),
        deleted_at(recs, es, keys_of(recs)[k]),
        forall|j: int|
            0 <= j < keys_of(recs).len() && j != k ==> !deleted_at(recs, es, #[trigger] keys_of(recs)[j]),
    ensures
        deleted_upto(recs, es, n) == (if n > k {
            seq![keys_of(recs)[k]]
        } else {
            Seq::<Seq<Seq<char>>>::empty()
        }),
    decreases n,
{
    if n > 0 {
        lemma_one_deleted(recs, es, k, n - 1);
        if n - 1 == k {
            assert(deleted_upto(recs, es, n) =~= seq![keys_of(recs)[k]]);
        } else {
            assert(!deleted_at(recs, es, keys_of(recs)[n - 1]));
            assert(deleted_upto(recs, es, n) =~= deleted_upto(recs, es, n - 1));
        }
    }
}

/// Every recorded path of a fresh package is present in its own walk.
proof fn lemma_fresh_keys_present(recs: Seq<(IndexPath, IndexEntryV1)>, es: Seq<WalkEntry>)
    requires
        fresh_package(recs, es),
    ensures
        forall|j: int| 0 <= j < keys_of(recs).len() ==> walk_has(es, #[trigger] keys_of(recs)[j]),
{
    assert forall|j: int| 0 <= j < keys_of(recs).len() implies walk_has(es, #[trigger] keys_of(recs)[j]) by {
        assert(keys_of(recs)[j] == recs[j].0@);
        assert(built_from(es, es.len() as int, recs[j].0@, recs[j].1));
        let m = choose|m: int| first_at(es, es.len() as int, m, recs[j].0@) && built_entry(es[m].kind) == Ok::<IndexEntryV1, BuildError>(recs[j].1);
        assert(es[m].path matches Some(q) && q@ == keys_of(recs)[j]);
    }
}

proof fn lemma_present_not_absent(es: Seq<WalkEntry>, q: Seq<Seq<char>>)
    requires
        walk_has(es, q),
    ensures
        !absent(es, q),
{
    let i = choose|i: int| 0 <= i < es.len() && ((#[trigger] es[i]).path matches Some(p) && p@ == q);
    assert(es[i].path matches Some(p) && p@ == q);
}

/// A package scanned right after it was extracted and indexed shows no change:
/// no entry is reported and nothing is deleted.
pub proof fn lemma_fresh_package_scans_clean(
    recs: Seq<(IndexPath, IndexEntryV1)>,
    es: Seq<WalkEntry>,
)
    requires
        fresh_package(recs, es),
    ensures
        walk_changes(recs, es, 0, None) == Seq::<(usize, Status)>::empty(),
        deleted_paths(recs, es) == Seq::<Seq<Seq<char>>>::empty(),
{
    assert forall|i: int| 0 <= i < es.len() implies clean(recs, #[trigger] es[i]) by {
        lemma_fresh_entry_clean(recs, es, i);
    }
    lemma_clean_walk(recs, es, 0);
    lemma_fresh_keys_present(recs, es);
    assert forall|j: int| 0 <= j < keys_of(recs).len() implies !absent(es, #[trigger] keys_of(recs)[j]) by {
        lemma_present_not_absent(es, keys_of(recs)[j]);
    }
    lemma_none_deleted(recs, es, keys_of(recs).len() as int);
}

/// New content in one shipped file `k` is reported as exactly one
/// `ContentModified`, for that file, and as nothing else.
pub proof fn lemma_edited_file_reported_once(
    recs: Seq<(IndexPath, IndexEntryV1)>,
    es: Seq<WalkEntry>,
    k: int,
    new_hash: [u8; 32],
)
    requires
        fresh_package(recs, es),
        0 <= k < es.len(),
        !is_manifest_entry(es[k]),
        es[k].kind matches FsKind::File { hash } && hash@ != new_hash@,
    ensures
        walk_changes(
            recs,
            es.update(k, WalkEntry { kind: FsKind::File { hash: new_hash }, ..es[k] }),
            0,
            None,
        ) == seq![(k as usize, Status::ContentModified)],
        deleted_paths(recs, es.update(k, WalkEntry { kind: FsKind::File { hash: new_hash }, ..es[k] }))
            == Seq::<Seq<Seq<char>>>::empty(),
{
    let e2 = WalkEntry { kind: FsKind::File { hash: new_hash }, ..es[k] };
    let es2 = es.update(k, e2);
    let j = lemma_record_of(recs, es, k);
    assert(entry_outcome(recs, es2[k]) == (Some(Status::ContentModified), false));
    assert forall|i: int| 0 <= i < es2.len() && i != k implies clean(recs, #[trigger] es2[i]) by {
        lemma_fresh_entry_clean(recs, es, i);
    }
    lemma_walk_one(recs, es2, k, Status::ContentModified, 0);
    lemma_fresh_keys_present(recs, es);
    assert forall|j: int| 0 <= j < keys_of(recs).len() implies !absent(es2, #[trigger] keys_of(recs)[j]) by {
        let q = keys_of(recs)[j];
        let i = choose|i: int| 0 <= i < es.len() && ((#[trigger] es[i]).path matches Some(p) && p@ == q);
        assert(es2[i].path == es[i].path);
        assert(es2[i].path matches Some(p) && p@ == q);
    }
    lemma_none_deleted(recs, es2, keys_of(recs).len() as int);
}

/// Deleting the shipped path `d` (with everything below it, where it is a
/// directory) is reported as exactly one `Deleted`, for `d`, and as nothing else.
/// `after` is the walk once it is gone: entries of the fresh walk, at every
/// path of it but those at or below `d`.
pub proof fn lemma_deletion_reported_once(
    recs: Seq<(IndexPath, IndexEntryV1)>,
    es: Seq<WalkEntry>,
    k: int,
    after: Seq<WalkEntry>,
)
    requires
        fresh_package(recs, es),
        0 <= k < es.len(),
        !is_manifest_entry(es[k]),
        forall|i: int| 0 <= i < after.len() ==> exists|j: int| 0 <= j < es.len() && #[trigger] after[i] == es[j],
        forall|q: Seq<Seq<char>>| #[trigger] walk_has(after, q) <==> walk_has(es, q) && !under(es[k].path->Some_0@, q),
    ensures
        walk_changes(recs, after, 0, None) == Seq::<(usize, Status)>::empty(),
        deleted_paths(recs, after) == seq![es[k].path->Some_0@],
{
    let d = es[k].path->Some_0@;
    assert forall|i: int| 0 <= i < after.len() implies clean(recs, #[trigger] after[i]) by {
        let j = choose|j: int| 0 <= j < es.len() && #[trigger] after[i] == es[j];
        lemma_fresh_entry_clean(recs, es, j);
    }
    lemma_clean_walk(recs, after, 0);
    lemma_fresh_keys_present(recs, es);
    let keys = keys_of(recs);
    // a recorded path is gone from `after` exactly when it lies at or below `d`
    assert forall|j: int| 0 <= j < keys.len() implies absent(after, #[trigger] keys[j]) == under(d, keys[j]) by {
        if under(d, keys[j]) {
            if !absent(after, keys[j]) {
                let i = choose|i: int| 0 <= i < after.len() && (#[trigger] after[i].path matches Some(q) && q@ == keys[j]);
                assert(walk_has(after, keys[j]));
            }
        } else {
            assert(walk_has(es, keys[j]));
            assert(walk_has(after, keys[j]));
            lemma_present_not_absent(after, keys[j]);
        }
    }
    let kd = lemma_record_of(recs, es, k);
    assert(keys[kd] == d);
    assert(under(d, d)) by {
        assert(d.subrange(0, d.len() as int) =~= d);
    }
    assert(deleted_at(recs, after, d)) by {
        assert forall|j: int| 0 <= j < keys.len() && crate::scan::is_proper_prefix(#[trigger] keys[j], d) implies !absent(after, keys[j]) by {
            assert(!under(d, keys[j]));
        }
    }
    assert forall|j: int| 0 <= j < keys.len() && j != kd implies !deleted_at(recs, after, #[trigger] keys[j]) by {
        if absent(after, keys[j]) {
            assert(under(d, keys[j]));
            assert(keys[j] != d) by {
                assert(recs[j].0@ != recs[kd].0@);
            }
            if d.len() == keys[j].len() {
                assert(keys[j].subrange(0, d.len() as int) =~= keys[j]);
            }
            assert(crate::scan::is_proper_prefix(keys[kd], keys[j]));
            assert(absent(after, keys[kd]));
        }
    }
    lemma_one_deleted(recs, after, kd, keys.len() as int);
}

/// The walk once `g` has been created at position `k`, with `below` the entries
/// under it.
pub open spec fn walk_with_created(
    es: Seq<WalkEntry>,
    k: int,
    g: WalkEntry,
    below: Seq<WalkEntry>,
) -> Seq<WalkEntry> {
    es.subrange(0, k) + seq![g] + below + es.subrange(k, es.len() as int)
}

proof fn lemma_clean_prefix(recs: Seq<(IndexPath, IndexEntryV1)>, es: Seq<WalkEntry>, j: int, k: int)
    requires
        0 <= j <= k <= es.len(),
        forall|i: int| j <= i < k ==> clean(recs, #[trigger] es[i]),
    ensures
        walk_changes(recs, es, j, None) == walk_changes(recs, es, k, None),
    decreases k - j,
{
    if j < k {
        assert(clean(recs, es[j]));
        lemma_clean_prefix(recs, es, j + 1, k);
        assert(walk_changes(recs, es, j, None) =~= walk_changes(recs, es, j + 1, None));
    }
}

proof fn lemma_skip_block(
    recs: Seq<(IndexPath, IndexEntryV1)>,
    es: Seq<WalkEntry>,
    j: int,
    b: int,
    d: usize,
)
    requires
        0 <= j <= b <= es.len(),
        forall|i: int| j <= i < b ==> (#[trigger] es[i]).depth > d,
    ensures
        walk_changes(recs, es, j, Some(d)) == walk_changes(recs, es, b, Some(d)),
    decreases b - j,
{
    if j < b {
        lemma_skip_block(recs, es, j + 1, b, d);
    }
}

/// A path that the package did not ship, created at position `k` of the walk
/// (with what lies below it, where it is a directory), is reported as exactly
/// one `Created`, and no child of it is reported.
pub proof fn lemma_creation_reported_once(
    recs: Seq<(IndexPath, IndexEntryV1)>,
    es: Seq<WalkEntry>,
    k: int,
    g: WalkEntry,
    below: Seq<WalkEntry>,
)
    requires
        fresh_package(recs, es),
        0 <= k <= es.len(),
        g.path matches Some(p) && !walk_has(es, p@) && p@ != seq![INDEX_FILE_NAME@],
        below.len() > 0 ==> g.kind is Directory,
        forall|i: int| 0 <= i < below.len() ==> (#[trigger] below[i]).depth > g.depth,
        k < es.len() ==> es[k].depth <= g.depth,
    ensures
        walk_changes(recs, walk_with_created(es, k, g, below), 0, None) == seq![
            (k as usize, Status::Created),
        ],
        deleted_paths(recs, walk_with_created(es, k, g, below)) == Seq::<Seq<Seq<char>>>::empty(),
{
    let after = walk_with_created(es, k, g, below);
    let m = below.len() as int;
    let b = k + 1 + m;
    assert(after.len() == es.len() + 1 + m);
    assert forall|i: int| 0 <= i < k implies after[i] == es[i] by {}
    assert(after[k] == g);
    assert forall|i: int| k + 1 <= i < b implies after[i] == below[i - k - 1] by {}
    assert forall|i: int| b <= i < after.len() implies after[i] == es[i - 1 - m] by {}
    let p = g.path->Some_0;
    crate::index::lemma_lookup_some(recs, p@);
    if lookup(recs, p@) is Some {
        let i = choose|i: int| 0 <= i < recs.len() && (#[trigger] recs[i]).0@ == p@;
        lemma_fresh_keys_present(recs, es);
        assert(keys_of(recs)[i] == p@);
    }
    assert(entry_outcome(recs, g) == (Some(Status::Created), g.kind is Directory));
    assert forall|i: int| 0 <= i < k implies clean(recs, #[trigger] after[i]) by {
        lemma_fresh_entry_clean(recs, es, i);
    }
    assert forall|i: int| b <= i < after.len() implies clean(recs, #[trigger] after[i]) by {
        lemma_fresh_entry_clean(recs, es, i - 1 - m);
    }
    lemma_clean_prefix(recs, after, 0, k);
    lemma_clean_walk(recs, after, b);
    if g.kind is Directory {
        lemma_skip_block(recs, after, k + 1, b, g.depth);
        if b < after.len() {
            assert(after[b] == es[k]);
            assert(clean(recs, after[b]));
            assert(walk_changes(recs, after, b, Some(g.depth)) == walk_changes(recs, after, b + 1, None));
            assert(walk_changes(recs, after, b, None) == walk_changes(recs, after, b + 1, None));
        }
        assert(walk_changes(recs, after, k + 1, Some(g.depth)) =~= Seq::<(usize, Status)>::empty());
    } else {
        assert(b == k + 1);
    }
    assert(walk_changes(recs, after, k, None) =~= seq![(k as usize, Status::Created)]);
    lemma_fresh_keys_present(recs, es);
    assert forall|j: int| 0 <= j < keys_of(recs).len() implies !absent(after, #[trigger] keys_of(recs)[j]) by {
        let q = keys_of(recs)[j];
        let i = choose|i: int| 0 <= i < es.len() && ((#[trigger] es[i]).path matches Some(p) && p@ == q);
        let at = if i < k { i } else { i + 1 + m };
        assert(after[at] == es[i]);
        assert(after[at].path matches Some(p) && p@ == q);
    }
    lemma_none_deleted(recs, after, keys_of(recs).len() as int);
}

/// An entry whose path is not text, reached by the walk after entries that show
/// no change, is reported as `UntrackablePath`.
pub proof fn lemma_untextual_path_reported(
    recs: Seq<(IndexPath, IndexEntryV1)>,
    es: Seq<WalkEntry>,
    k: int,
)
    requires
        0 <= k < es.len(),
        es[k].path is None,
        forall|i: int| 0 <= i < k ==> clean(recs, #[trigger] es[i]),
    ensures
        walk_changes(recs, es, 0, None).len() > 0,
        walk_changes(recs, es, 0, None)[0] == (k as usize, Status::UntrackablePath),
{
    lemma_clean_prefix(recs, es, 0, k);
}

/// A walk with an entry whose path is not text cannot be indexed.
pub proof fn lemma_untextual_path_blocks_index(es: Seq<WalkEntry>, k: int)
    requires
        0 <= k < es.len(),
        es[k].path is None,
    ensures
        build_error(es[k]) == Some(crate::builder::BuildError::UnsupportedPath),
        !(forall|j: int| 0 <= j < es.len() ==> build_error(#[trigger] es[j]) is None),
{
}

proof fn lemma_positions_from(
    recs: Seq<(IndexPath, IndexEntryV1)>,
    es: Seq<WalkEntry>,
    j: int,
    st: Option<usize>,
)
    requires
        0 <= j,
        es.len() <= usize::MAX,
    ensures
        forall|i: int|
            0 <= i < walk_changes(recs, es, j, st).len() ==> (#[trigger] walk_changes(recs, es, j, st)[i]).0
                >= j,
    decreases es.len() - j,
{
    if j < es.len() {
        let o = entry_outcome(recs, es[j]);
        let next = if o.1 {
            Some(es[j].depth)
        } else {
            None
        };
        lemma_positions_from(recs, es, j + 1, st);
        lemma_positions_from(recs, es, j + 1, next);
        let w = walk_changes(recs, es, j, st);
        if !(st matches Some(d) && es[j].depth > d) {
            let here: Seq<(usize, Status)> = match o.0 {
                Some(s) => seq![(j as usize, s)],
                None => Seq::empty(),
            };
            let rest = walk_changes(recs, es, j + 1, next);
            assert(w == here + rest);
            assert forall|i: int| 0 <= i < w.len() implies (#[trigger] w[i]).0 >= j by {
                if i >= here.len() {
                    assert(w[i] == rest[i - here.len()]);
                }
            }
        } else {
            let rest = walk_changes(recs, es, j + 1, st);
            assert(w == rest);
            assert forall|i: int| 0 <= i < w.len() implies (#[trigger] w[i]).0 >= j by {
                assert(w[i] == rest[i]);
            }
        }
    }
}

/// A directory that the scan reports (created, replaced by a directory, or at a
/// path that is not text) hides what lies below it: where the walk takes it up,
/// it is reported once and none of the deeper entries that follow it is.
pub proof fn lemma_reported_directory_hides_subtree(
    recs: Seq<(IndexPath, IndexEntryV1)>,
    es: Seq<WalkEntry>,
    k: int,
    b: int,
    skip: Option<usize>,
    s: Status,
)
    requires
        0 <= k < b <= es.len(),
        es.len() <= usize::MAX,
        es[k].kind is Directory,
        entry_outcome(recs, es[k]).0 == Some(s),
        forall|i: int| k < i < b ==> (#[trigger] es[i]).depth > es[k].depth,
        !(skip matches Some(d) && es[k].depth > d),
    ensures
        walk_changes(recs, es, k, skip) == seq![(k as usize, s)] + walk_changes(
            recs,
            es,
            b,
            Some(es[k].depth),
        ),
        forall|i: int|
            0 <= i < walk_changes(recs, es, k, skip).len() ==> !(k < (#[trigger] walk_changes(
                recs,
                es,
                k,
                skip,
            )[i]).0 < b),
{
    assert(entry_outcome(recs, es[k]).1);
    lemma_skip_block(recs, es, k + 1, b, es[k].depth);
    lemma_positions_from(recs, es, b, Some(es[k].depth));
    let w = walk_changes(recs, es, k, skip);
    let rest = walk_changes(recs, es, b, Some(es[k].depth));
    assert forall|i: int| 0 <= i < w.len() implies !(k < (#[trigger] w[i]).0 < b) by {
        if i > 0 {
            assert(w[i] == rest[i - 1]);
        }
    }
}

/// The digest that a walk gives of a regular file changes nothing in the scan
/// where `digest_needed` does not hold.
pub proof fn lemma_unneeded_digest_unread(
    recs: Seq<(IndexPath, IndexEntryV1)>,
    e: WalkEntry,
    other: [u8; 32],
)
    requires
        e.kind is File,
        !(e.path matches Some(p) && p@ != seq![INDEX_FILE_NAME@] && lookup(recs, p@) matches Some(
            IndexEntryV1::File { .. },
        )),
    ensures
        entry_outcome(recs, e) == entry_outcome(
            recs,
            WalkEntry { kind: FsKind::File { hash: other }, ..e },
        ),
{
}

} // verus!
