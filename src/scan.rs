use vstd::prelude::*;

use crate::index::{keys_of, lookup, Index, IndexEntryV1, IndexPath, INDEX_FILE_NAME};

verus! {

/// How a path differs from what the package shipped.
#[derive(Debug, Clone, Copy, PartialEq, Eq, Structural)]
pub enum Status {
    /// A file had its content modified from that which came with the package.
    ContentModified,
    /// A file or directory that did not come with the package was created.
    Created,
    /// A filesystem object was replaced with one of a different type.
    TypeChanged,
    /// A symlink's target changed.
    LinkTargetChanged,
    /// A filesystem object that came with the package was deleted.
    Deleted,
    /// The path could not be tracked because a component of it is not text.
    UntrackablePath,
}

/// What a walk found at one path, read without following symbolic links.
#[derive(Debug, Clone)]
pub enum FsKind {
    /// A regular file, with the digest of its content. A scan reads the digest
    /// only where `digest_needed` holds; elsewhere any value will do.
    File { hash: [u8; 32] },
    Directory,
    /// A symbolic link: its target as text, and the same target with the package
    /// root taken off its front, where it starts with the root.
    Symlink { target: Option<String>, target_in_root: Option<String> },
    /// Anything else (a device, a pipe, a socket).
    Other,
}

/// One entry of a depth-first walk below a package root, the root left out.
#[derive(Debug, Clone)]
pub struct WalkEntry {
    /// Depth below the root; the root's children are at depth 1.
    pub depth: usize,
    /// The path relative to the root; `None` where a component is not text.
    pub path: Option<IndexPath>,
    pub kind: FsKind,
}

/// A name for what `Path::is_relative` says of a path.
pub uninterp spec fn path_is_relative(s: Seq<char>) -> bool;

/// A name for whether `Path`'s `==` holds of two paths.
pub uninterp spec fn paths_equal(a: Seq<char>, b: Seq<char>) -> bool;

/// Relies on std::path::Path::is_relative.
#[verifier::external_body]
fn is_relative_path(s: &str) -> (r: bool)
    ensures
        r == path_is_relative(s@),
{
    std::path::Path::new(s).is_relative()
}

/// Relies on `==` of std::path::Path, which compares paths by their components.
#[verifier::external_body]
fn same_path(a: &str, b: &str) -> (r: bool)
    ensures
        r == paths_equal(a@, b@),
{
    std::path::Path::new(a) == std::path::Path::new(b)
}

/// The link target that is compared with a recorded one: taken relative to the
/// root when the recorded target is relative.
pub open spec fn link_compared(
    stored: Seq<char>,
    target: Option<String>,
    target_in_root: Option<String>,
) -> Option<String> {
    if path_is_relative(stored) && target_in_root is Some {
        target_in_root
    } else {
        target
    }
}

/// When a recorded symbolic link is reported: when the link on disk names the
/// recorded target.
pub open spec fn link_reported(
    stored: Seq<char>,
    target: Option<String>,
    target_in_root: Option<String>,
) -> bool {
    link_compared(stored, target, target_in_root) matches Some(a) && paths_equal(a@, stored)
}

/// What the scan reports of one walked entry, and whether it skips what lies below it.
pub open spec fn entry_outcome(recs: Seq<(IndexPath, IndexEntryV1)>, e: WalkEntry) -> (Option<Status>, bool) {
    match e.path {
        None => (Some(Status::UntrackablePath), e.kind is Directory),
        Some(p) => {
            if p@ == seq![INDEX_FILE_NAME@] {
                (None, false)
            } else {
                match lookup(recs, p@) {
                    None => (Some(Status::Created), e.kind is Directory),
                    Some(IndexEntryV1::File { hash }) => match e.kind {
                        FsKind::File { hash: h } => (
                            if h@ == hash@ {
                                None
                            } else {
                                Some(Status::ContentModified)
                            },
                            false,
                        ),
                        FsKind::Directory => (Some(Status::TypeChanged), true),
                        _ => (Some(Status::TypeChanged), false),
                    },
                    Some(IndexEntryV1::Symlink { target }) => match e.kind {
                        FsKind::Symlink { target: t, target_in_root: tr } => (
                            if link_reported(target@, t, tr) {
                                Some(Status::LinkTargetChanged)
                            } else {
                                None
                            },
                            false,
                        ),
                        FsKind::Directory => (Some(Status::TypeChanged), true),
                        _ => (Some(Status::TypeChanged), false),
                    },
                    Some(IndexEntryV1::Directory) => match e.kind {
                        FsKind::Directory => (None, false),
                        _ => (Some(Status::TypeChanged), false),
                    },
                }
            }
        },
    }
}

/// The changes that the walk reports from entry `k` on, while it skips entries
/// deeper than `skip`.
pub open spec fn walk_changes(recs: Seq<(IndexPath, IndexEntryV1)>, es: Seq<WalkEntry>, k: int, skip: Option<usize>) -> Seq<
    (usize, Status),
>
    decreases es.len() - k,
{
    if k < 0 || k >= es.len() {
        Seq::empty()
    } else if skip matches Some(d) && es[k].depth > d {
        walk_changes(recs, es, k + 1, skip)
    } else {
        let o = entry_outcome(recs, es[k]);
        let here: Seq<(usize, Status)> = match o.0 {
            Some(s) => seq![(k as usize, s)],
            None => Seq::empty(),
        };
        let next = if o.1 {
            Some(es[k].depth)
        } else {
            None
        };
        here + walk_changes(recs, es, k + 1, next)
    }
}

/// No entry of the walk is at `p`.
pub open spec fn absent(es: Seq<WalkEntry>, p: Seq<Seq<char>>) -> bool {
    forall|k: int| 0 <= k < es.len() ==> !(#[trigger] es[k].path matches Some(q) && q@ == p)
}

pub open spec fn is_proper_prefix(a: Seq<Seq<char>>, b: Seq<Seq<char>>) -> bool {
    a.len() < b.len() && b.subrange(0, a.len() as int) == a
}

/// A recorded path is reported deleted when it is gone and no recorded path
/// above it is gone too.
pub open spec fn deleted_at(recs: Seq<(IndexPath, IndexEntryV1)>, es: Seq<WalkEntry>, p: Seq<Seq<char>>) -> bool {
    absent(es, p) && !exists|j: int|
        0 <= j < keys_of(recs).len() && is_proper_prefix(#[trigger] keys_of(recs)[j], p) && absent(
            es,
            keys_of(recs)[j],
        )
}

/// The deleted paths among the first `n` records, in the order of the records.
pub open spec fn deleted_upto(recs: Seq<(IndexPath, IndexEntryV1)>, es: Seq<WalkEntry>, n: int) -> Seq<Seq<Seq<char>>>
    decreases n,
{
    if n <= 0 || n > keys_of(recs).len() {
        Seq::empty()
    } else {
        deleted_upto(recs, es, n - 1) + if deleted_at(recs, es, keys_of(recs)[n - 1]) {
            seq![keys_of(recs)[n - 1]]
        } else {
            Seq::empty()
        }
    }
}

pub open spec fn deleted_paths(recs: Seq<(IndexPath, IndexEntryV1)>, es: Seq<WalkEntry>) -> Seq<Seq<Seq<char>>> {
    deleted_upto(recs, es, keys_of(recs).len() as int)
}

/// Whether two digests are equal.
pub fn digest_eq(a: &[u8; 32], b: &[u8; 32]) -> (r: bool)
    ensures
        r == (a@ == b@),
{
    let mut i: usize = 0;
    while i < 32
        invariant
            i <= 32,
            a@.len() == 32,
            b@.len() == 32,
            forall|j: int| 0 <= j < i ==> a@[j] == b@[j],
        decreases 32 - i,
    {
        if a[i] != b[i] {
            return false;
        }
        i = i + 1;
    }
    assert(a@ =~= b@);
    true
}

fn link_reported_exec(stored: &String, target: &Option<String>, target_in_root: &Option<String>) -> (r:
    bool)
    ensures
        r == link_reported(stored@, *target, *target_in_root),
{
    let compared = if is_relative_path(stored.as_str()) && target_in_root.is_some() {
        target_in_root
    } else {
        target
    };
    match compared {
        Some(a) => same_path(a.as_str(), stored.as_str()),
        None => false,
    }
}

/// What the scan reports of one entry, and whether it skips what lies below it.
pub fn outcome_of(idx: &Index, e: &WalkEntry) -> (r: (Option<Status>, bool))
    ensures
        r == entry_outcome(idx.records(), *e),
{
    let is_dir = matches!(e.kind, FsKind::Directory);
    match &e.path {
        None => (Some(Status::UntrackablePath), is_dir),
        Some(p) => {
            if p.is_index_file() {
                return (None, false);
            }
            match idx.get(p) {
                None => (Some(Status::Created), is_dir),
                Some(IndexEntryV1::File { hash }) => match &e.kind {
                    FsKind::File { hash: h } => (
                        if digest_eq(h, hash) {
                            None
                        } else {
                            Some(Status::ContentModified)
                        },
                        false,
                    ),
                    FsKind::Directory => (Some(Status::TypeChanged), true),
                    _ => (Some(Status::TypeChanged), false),
                },
                Some(IndexEntryV1::Symlink { target }) => match &e.kind {
                    FsKind::Symlink { target: t, target_in_root: tr } => (
                        if link_reported_exec(target, t, tr) {
                            Some(Status::LinkTargetChanged)
                        } else {
                            None
                        },
                        false,
                    ),
                    FsKind::Directory => (Some(Status::TypeChanged), true),
                    _ => (Some(Status::TypeChanged), false),
                },
                Some(IndexEntryV1::Directory) => match &e.kind {
                    FsKind::Directory => (None, false),
                    _ => (Some(Status::TypeChanged), false),
                },
            }
        },
    }
}

/// The changes that a walk over `entries` reports, in walk order, each with the
/// position of its entry.
pub fn walk_entries(idx: &Index, entries: &Vec<WalkEntry>) -> (r: Vec<(usize, Status)>)
    ensures
        r@ == walk_changes(idx.records(), entries@, 0, None),
{
    let mut out: Vec<(usize, Status)> = Vec::new();
    let mut skip: Option<usize> = None;
    let mut k: usize = 0;
    while k < entries.len()
        invariant
            k <= entries@.len(),
            out@ + walk_changes(idx.records(), entries@, k as int, skip) == walk_changes(
                idx.records(),
                entries@,
                0,
                None,
            ),
        decreases entries@.len() - k,
    {
        let e = &entries[k];
        let skipped = match skip {
            Some(d) => e.depth > d,
            None => false,
        };
        if skipped {
            k = k + 1;
        } else {
            let o = outcome_of(idx, e);
            let ghost before = out@;
            match o.0 {
                Some(s) => {
                    out.push((k, s));
                },
                None => {},
            }
            proof {
                let here: Seq<(usize, Status)> = match o.0 {
                    Some(s) => seq![(k as usize, s)],
                    None => Seq::empty(),
                };
                assert(out@ == before + here);
                let next = if o.1 {
                    Some(entries@[k as int].depth)
                } else {
                    None
                };
                assert(walk_changes(idx.records(), entries@, k as int, skip) == here + walk_changes(
                    idx.records(),
                    entries@,
                    k + 1,
                    next,
                ));
                assert(before + (here + walk_changes(idx.records(), entries@, k + 1, next)) =~= out@
                    + walk_changes(idx.records(), entries@, k + 1, next));
            }
            skip = if o.1 {
                Some(e.depth)
            } else {
                None
            };
            k = k + 1;
        }
    }
    assert(walk_changes(idx.records(), entries@, k as int, skip) =~= Seq::empty());
    assert(out@ =~= out@ + Seq::<(usize, Status)>::empty());
    out
}

/// Whether no entry of the walk is at `p`.
pub fn is_absent(entries: &Vec<WalkEntry>, p: &IndexPath) -> (r: bool)
    ensures
        r == absent(entries@, p@),
{
    let mut k: usize = 0;
    while k < entries.len()
        invariant
            k <= entries@.len(),
            forall|j: int| 0 <= j < k ==> !(#[trigger] entries@[j].path matches Some(q) && q@ == p@),
        decreases entries@.len() - k,
    {
        match &entries[k].path {
            Some(q) => {
                if q.same(p) {
                    return false;
                }
            },
            None => {},
        }
        k = k + 1;
    }
    true
}

/// Whether `a` is a proper prefix of `b`.
pub fn proper_prefix(a: &IndexPath, b: &IndexPath) -> (r: bool)
    ensures
        r == is_proper_prefix(a@, b@),
{
    let n = a.0.len();
    if n >= b.0.len() {
        return false;
    }
    let mut i: usize = 0;
    while i < n
        invariant
            n == a@.len(),
            n < b@.len(),
            i <= n,
            forall|j: int| 0 <= j < i ==> a@[j] == b@[j],
        decreases n - i,
    {
        if a.0[i] != b.0[i] {
            assert(b@.subrange(0, n as int)[i as int] != a@[i as int]);
            return false;
        }
        i = i + 1;
    }
    assert(b@.subrange(0, n as int) =~= a@);
    true
}

/// A copy of a path.
pub fn copy_path(p: &IndexPath) -> (r: IndexPath)
    ensures
        r@ == p@,
{
    let mut out: Vec<String> = Vec::new();
    let mut i: usize = 0;
    while i < p.0.len()
        invariant
            i <= p.0@.len(),
            out@.len() == i,
            forall|j: int| 0 <= j < i ==> (#[trigger] out@[j])@ == p.0@[j]@,
        decreases p.0@.len() - i,
    {
        out.push(p.0[i].clone());
        i = i + 1;
    }
    let r = IndexPath(out);
    assert(r@ =~= p@);
    r
}

/// The recorded paths that the walk no longer finds, leaving out those below
/// another recorded path that is gone.
pub fn find_deleted(idx: &Index, entries: &Vec<WalkEntry>) -> (r: Vec<IndexPath>)
    ensures
        r@.map_values(|p: IndexPath| p@) == deleted_paths(idx.records(), entries@),
{
    let records = match idx {
        Index::V1(v) => v,
    };
    assert(records@ == idx.records());
    let mut absent_at: Vec<bool> = Vec::new();
    let mut i: usize = 0;
    while i < records.len()
        invariant
            records@ == idx.records(),
            i <= records@.len(),
            absent_at@.len() == i,
            forall|j: int| 0 <= j < i ==> absent_at@[j] == absent(entries@, #[trigger] idx.keys()[j]),
        decreases records@.len() - i,
    {
        absent_at.push(is_absent(entries, &records[i].0));
        i = i + 1;
    }
    let mut out: Vec<IndexPath> = Vec::new();
    let mut n: usize = 0;
    while n < records.len()
        invariant
            records@ == idx.records(),
            n <= records@.len(),
            absent_at@.len() == records@.len(),
            forall|j: int| 0 <= j < records@.len() ==> absent_at@[j] == absent(entries@, #[trigger] idx.keys()[j]),
            out@.map_values(|p: IndexPath| p@) == deleted_upto(idx.records(), entries@, n as int),
        decreases records@.len() - n,
    {
        let p = &records[n].0;
        assert(idx.keys()[n as int] == p@);
        let mut gone = absent_at[n];
        if gone {
            let mut j: usize = 0;
            while j < records.len()
                invariant
                    records@ == idx.records(),
                    j <= records@.len(),
                    n < records@.len(),
                    p@ == idx.keys()[n as int],
                    absent_at@.len() == records@.len(),
                    forall|m: int| 0 <= m < records@.len() ==> absent_at@[m] == absent(entries@, #[trigger] idx.keys()[m]),
                    gone ==> forall|m: int|
                        0 <= m < j ==> !(is_proper_prefix(#[trigger] idx.keys()[m], p@) && absent(
                            entries@,
                            idx.keys()[m],
                        )),
                    gone <==> deleted_at(idx.records(), entries@, p@) || (absent(entries@, p@) && j < records@.len() && forall|m: int|
                        0 <= m < j ==> !(is_proper_prefix(#[trigger] idx.keys()[m], p@) && absent(
                            entries@,
                            idx.keys()[m],
                        ))),
                decreases records@.len() - j,
            {
                assert(idx.keys()[j as int] == records@[j as int].0@);
                if absent_at[j] && proper_prefix(&records[j].0, p) {
                    gone = false;
                }
                j = j + 1;
            }
        }
        assert(gone == deleted_at(idx.records(), entries@, p@));
        let ghost before = out@;
        if gone {
            out.push(copy_path(p));
        }
        proof {
            assert(deleted_upto(idx.records(), entries@, n + 1) == deleted_upto(idx.records(), entries@, n as int) + if deleted_at(idx.records(), entries@, idx.keys()[n as int]) {
                seq![idx.keys()[n as int]]
            } else {
                Seq::empty()
            });
            assert(out@.map_values(|p: IndexPath| p@) =~= deleted_upto(idx.records(), entries@, n + 1));
        }
        n = n + 1;
    }
    out
}

/// What a scan reports: the changed walk entries, by position, and the recorded
/// paths that were deleted.
#[derive(Debug)]
pub struct ScanReport {
    pub changes: Vec<(usize, Status)>,
    pub deleted: Vec<IndexPath>,
}

/// What is found at the install target.
#[derive(Debug, Clone, Copy, PartialEq, Eq, Structural)]
pub enum TargetKind {
    Missing,
    NotADirectory,
    Directory,
}

/// The outcome of reading the manifest file of a target directory.
#[derive(Debug)]
pub enum ManifestRead {
    Absent,
    Unreadable,
    Malformed,
    Loaded(Index),
}

/// Why a scan fails.
#[derive(Debug, Clone, Copy, PartialEq, Eq, Structural)]
pub enum ScanError {
    /// The target does not exist.
    IndexNotFoundError,
    /// The target exists but is not a directory.
    NotADirectory,
    /// The manifest exists but could not be read.
    ReadIndexError,
    /// The manifest was read but does not hold a valid index.
    InvalidIndexError,
}

/// The index that a scan compares against, given how the manifest read went.
pub open spec fn scan_records(manifest: ManifestRead) -> Seq<(IndexPath, IndexEntryV1)> {
    match manifest {
        ManifestRead::Loaded(idx) => idx.records(),
        _ => Seq::empty(),
    }
}

/// The error a scan gives, if any.
pub open spec fn scan_error(target: TargetKind, manifest: ManifestRead) -> Option<ScanError> {
    match target {
        TargetKind::Missing => Some(ScanError::IndexNotFoundError),
        TargetKind::NotADirectory => Some(ScanError::NotADirectory),
        TargetKind::Directory => match manifest {
            ManifestRead::Unreadable => Some(ScanError::ReadIndexError),
            ManifestRead::Malformed => Some(ScanError::InvalidIndexError),
            _ => None,
        },
    }
}

/// Compares a package directory with its manifest. `entries` is the depth-first
/// walk below the target, the root left out; an absent manifest counts as an
/// empty one.
pub fn scan_installed_package_for_changes(
    target: TargetKind,
    manifest: ManifestRead,
    entries: &Vec<WalkEntry>,
) -> (r: Result<ScanReport, ScanError>)
    ensures
        r is Err <==> scan_error(target, manifest) is Some,
        r matches Err(e) ==> scan_error(target, manifest) == Some(e),
        r matches Ok(rep) ==> rep.changes@ == walk_changes(scan_records(manifest), entries@, 0, None)
            && rep.deleted@.map_values(|p: IndexPath| p@) == deleted_paths(
            scan_records(manifest),
            entries@,
        ),
{
    match target {
        TargetKind::Missing => return Err(ScanError::IndexNotFoundError),
        TargetKind::NotADirectory => return Err(ScanError::NotADirectory),
        TargetKind::Directory => {},
    }
    let idx = match manifest {
        ManifestRead::Unreadable => return Err(ScanError::ReadIndexError),
        ManifestRead::Malformed => return Err(ScanError::InvalidIndexError),
        ManifestRead::Absent => Index::V1(Vec::new()),
        ManifestRead::Loaded(idx) => idx,
    };
    assert(idx.records() =~= scan_records(manifest));
    let changes = walk_entries(&idx, entries);
    let deleted = find_deleted(&idx, entries);
    Ok(ScanReport { changes, deleted })
}

/// Whether the scan compares the content digest of a regular file at `p`: it
/// does only where the index records a file there. Elsewhere the digest that
/// the walk gives is never read.
pub fn digest_needed(idx: &Index, p: &IndexPath) -> (r: bool)
    ensures
        r == (p@ != seq![INDEX_FILE_NAME@] && lookup(idx.records(), p@) matches Some(
            IndexEntryV1::File { .. },
        )),
{
    if p.is_index_file() {
        return false;
    }
    match idx.get(p) {
        Some(IndexEntryV1::File { .. }) => true,
        _ => false,
    }
}

} // verus!
