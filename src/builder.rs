use vstd::prelude::*;

use crate::index::{index_wf, Index, IndexEntryV1, IndexPath, INDEX_FILE_NAME};
use crate::scan::{copy_path, FsKind, WalkEntry};

verus! {

/// Why an extracted tree cannot be indexed.
#[derive(Debug, Clone, Copy, PartialEq, Eq, Structural)]
pub enum BuildError {
    /// A path component is not text.
    UnsupportedPath,
    /// A symbolic link's target is not text.
    UnsupportedLinkTarget,
    /// An entry is neither a file, a directory nor a symbolic link.
    UnsupportedFileType,
}

/// The record for what the walk found: a link pointing inside the root is
/// recorded relative to it.
pub open spec fn built_entry(k: FsKind) -> Result<IndexEntryV1, BuildError> {
    match k {
        FsKind::File { hash } => Ok(IndexEntryV1::File { hash }),
        FsKind::Directory => Ok(IndexEntryV1::Directory),
        FsKind::Symlink { target, target_in_root } => match (if target_in_root is Some {
            target_in_root
        } else {
            target
        }) {
            Some(t) => Ok(IndexEntryV1::Symlink { target: t }),
            None => Err(BuildError::UnsupportedLinkTarget),
        },
        FsKind::Other => Err(BuildError::UnsupportedFileType),
    }
}

/// The walk entry at the manifest file, which an index never records.
pub open spec fn is_manifest_entry(e: WalkEntry) -> bool {
    e.path matches Some(p) && p@ == seq![INDEX_FILE_NAME@]
}

/// Why one walked entry cannot be recorded, if it cannot.
pub open spec fn build_error(e: WalkEntry) -> Option<BuildError> {
    if e.path is None {
        Some(BuildError::UnsupportedPath)
    } else if is_manifest_entry(e) {
        None
    } else {
        match built_entry(e.kind) {
            Err(x) => Some(x),
            Ok(_) => None,
        }
    }
}

/// Entry `k` is the first of the first `n` entries of the walk at path `p`.
pub open spec fn first_at(es: Seq<WalkEntry>, n: int, k: int, p: Seq<Seq<char>>) -> bool {
    &&& 0 <= k < n
    &&& es[k].path matches Some(q) && q@ == p
    &&& forall|i: int| 0 <= i < k ==> !(#[trigger] es[i].path matches Some(q) && q@ == p)
}

/// The record `e` at `p` is built from the first of the first `n` walk entries at `p`.
pub open spec fn built_from(es: Seq<WalkEntry>, n: int, p: Seq<Seq<char>>, e: IndexEntryV1) -> bool {
    exists|k: int| first_at(es, n, k, p) && built_entry(es[k].kind) == Ok::<IndexEntryV1, BuildError>(e)
}

/// `recs` is a well-formed index of the first `n` entries of the walk: each
/// record is built from the first entry at its path, and every entry but the
/// manifest file has a record.
pub open spec fn records_prefix(recs: Seq<(IndexPath, IndexEntryV1)>, es: Seq<WalkEntry>, n: int) -> bool {
    &&& index_wf(recs)
    &&& forall|j: int| 0 <= j < recs.len() ==> built_from(es, n, (#[trigger] recs[j]).0@, recs[j].1)
    &&& forall|k: int|
        0 <= k < n && !is_manifest_entry(#[trigger] es[k]) && es[k].path is Some ==> exists|j: int|
            0 <= j < recs.len() && (#[trigger] recs[j]).0@ == es[k].path->Some_0@
}

/// `recs` is a well-formed index of the whole walk.
pub open spec fn records_walk(recs: Seq<(IndexPath, IndexEntryV1)>, es: Seq<WalkEntry>) -> bool {
    records_prefix(recs, es, es.len() as int)
}

fn build_entry(k: &FsKind) -> (r: Result<IndexEntryV1, BuildError>)
    ensures
        r == built_entry(*k),
{
    match k {
        FsKind::File { hash } => Ok(IndexEntryV1::File { hash: *hash }),
        FsKind::Directory => Ok(IndexEntryV1::Directory),
        FsKind::Symlink { target, target_in_root } => {
            let t = if target_in_root.is_some() {
                target_in_root
            } else {
                target
            };
            match t {
                Some(t) => Ok(IndexEntryV1::Symlink { target: t.clone() }),
                None => Err(BuildError::UnsupportedLinkTarget),
            }
        },
        FsKind::Other => Err(BuildError::UnsupportedFileType),
    }
}

/// Whether some record is at `p`.
fn recorded(recs: &Vec<(IndexPath, IndexEntryV1)>, p: &IndexPath) -> (r: bool)
    ensures
        r == exists|j: int| 0 <= j < recs@.len() && (#[trigger] recs@[j]).0@ == p@,
{
    let mut j: usize = 0;
    while j < recs.len()
        invariant
            j <= recs@.len(),
            forall|i: int| 0 <= i < j ==> (#[trigger] recs@[i]).0@ != p@,
        decreases recs@.len() - j,
    {
        if recs[j].0.same(p) {
            return true;
        }
        j = j + 1;
    }
    false
}

/// The index of a freshly extracted tree, from the depth-first walk below its
/// root. The manifest file is left out, and a path is recorded once, from its
/// first entry; it fails on the first entry that cannot be recorded.
pub fn build_index(entries: &Vec<WalkEntry>) -> (r: Result<Index, BuildError>)
    ensures
        r is Ok <==> forall|k: int| 0 <= k < entries@.len() ==> build_error(#[trigger] entries@[k]) is None,
        r matches Err(x) ==> exists|k: int|
            0 <= k < entries@.len() && build_error(#[trigger] entries@[k]) == Some(x) && forall|j: int|
                0 <= j < k ==> build_error(#[trigger] entries@[j]) is None,
        r matches Ok(idx) ==> idx.wf() && records_walk(idx.records(), entries@),
{
    let ghost es = entries@;
    let mut recs: Vec<(IndexPath, IndexEntryV1)> = Vec::new();
    let mut k: usize = 0;
    while k < entries.len()
        invariant
            es == entries@,
            k <= es.len(),
            forall|j: int| 0 <= j < k ==> build_error(#[trigger] es[j]) is None,
            records_prefix(recs@, es, k as int),
        decreases es.len() - k,
    {
        let e = &entries[k];
        let p = match &e.path {
            Some(p) => p,
            None => return Err(BuildError::UnsupportedPath),
        };
        if p.is_index_file() {
            proof {
                assert(is_manifest_entry(es[k as int]));
                lemma_prefix_skips(recs@, es, k as int);
            }
        } else {
            let entry = match build_entry(&e.kind) {
                Ok(entry) => entry,
                Err(x) => return Err(x),
            };
            if recorded(&recs, p) {
                proof {
                    lemma_prefix_skips(recs@, es, k as int);
                }
            } else {
                let ghost before = recs@;
                proof {
                    lemma_prefix_grows(before, es, k as int);
                    // no earlier entry stands at this path: it would have a record
                    assert forall|i: int| 0 <= i < k implies !(#[trigger] es[i].path matches Some(q) && q@ == p@) by {
                        if es[i].path matches Some(q) && q@ == p@ {
                            assert(!is_manifest_entry(es[i]));
                        }
                    }
                }
                recs.push((copy_path(p), entry));
                proof {
                    let n = k + 1;
                    assert(recs@[before.len() as int].0@ == p@);
                    assert forall|i: int, j: int|
                        0 <= i < recs@.len() && 0 <= j < recs@.len() && i != j implies (#[trigger] recs@[i]).0@ != (
                        #[trigger] recs@[j]).0@ by {
                        if i < before.len() && j < before.len() {
                            assert(recs@[i] == before[i] && recs@[j] == before[j]);
                        } else if i < before.len() {
                            assert(recs@[i] == before[i]);
                        } else if j < before.len() {
                            assert(recs@[j] == before[j]);
                        }
                    }
                    assert forall|j: int| 0 <= j < recs@.len() implies built_from(es, n as int, (#[trigger] recs@[j]).0@, recs@[j].1) by {
                        if j < before.len() {
                            assert(recs@[j] == before[j]);
                            let m = choose|m: int| first_at(es, k as int, m, before[j].0@) && built_entry(es[m].kind) == Ok::<
                                IndexEntryV1,
                                BuildError,
                            >(before[j].1);
                            assert(first_at(es, n as int, m, recs@[j].0@));
                        } else {
                            assert(first_at(es, n as int, k as int, recs@[j].0@));
                        }
                    }
                    assert forall|m: int|
                        0 <= m < n && !is_manifest_entry(#[trigger] es[m]) && es[m].path is Some implies exists|j: int|
                            0 <= j < recs@.len() && (#[trigger] recs@[j]).0@ == es[m].path->Some_0@ by {
                        if m < k {
                            let j = choose|j: int| 0 <= j < before.len() && (#[trigger] before[j]).0@ == es[m].path->Some_0@;
                            assert(recs@[j] == before[j]);
                        } else {
                            assert(recs@[before.len() as int].0@ == es[m].path->Some_0@);
                        }
                    }
                }
            }
        }
        k = k + 1;
    }
    Ok(Index::V1(recs))
}

/// The first `k` entries carry over to the first `k + 1`, the next entry being
/// the manifest file, at no path, or at a path already recorded.
proof fn lemma_prefix_grows(recs: Seq<(IndexPath, IndexEntryV1)>, es: Seq<WalkEntry>, k: int)
    requires
        0 <= k < es.len(),
        records_prefix(recs, es, k),
    ensures
        forall|j: int|
            0 <= j < recs.len() ==> built_from(es, k + 1, (#[trigger] recs[j]).0@, recs[j].1),
{
    assert forall|j: int| 0 <= j < recs.len() implies built_from(es, k + 1, (#[trigger] recs[j]).0@, recs[j].1) by {
        let m = choose|m: int| first_at(es, k, m, recs[j].0@) && built_entry(es[m].kind) == Ok::<
            IndexEntryV1,
            BuildError,
        >(recs[j].1);
        assert(first_at(es, k + 1, m, recs[j].0@));
    }
}

proof fn lemma_prefix_skips(recs: Seq<(IndexPath, IndexEntryV1)>, es: Seq<WalkEntry>, k: int)
    requires
        0 <= k < es.len(),
        records_prefix(recs, es, k),
        is_manifest_entry(es[k]) || es[k].path is None || exists|j: int|
            0 <= j < recs.len() && (#[trigger] recs[j]).0@ == es[k].path->Some_0@,
    ensures
        records_prefix(recs, es, k + 1),
{
    lemma_prefix_grows(recs, es, k);
    assert forall|m: int|
        0 <= m < k + 1 && !is_manifest_entry(#[trigger] es[m]) && es[m].path is Some implies exists|j: int|
            0 <= j < recs.len() && (#[trigger] recs[j]).0@ == es[m].path->Some_0@ by {
        if m < k {
            assert(0 <= m < k && !is_manifest_entry(es[m]) && es[m].path is Some);
        }
    }
}

} // verus!
