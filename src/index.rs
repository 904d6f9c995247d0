use vstd::prelude::*;

verus! {

/// Length in bytes of a content digest.
pub const DIGEST_LEN: usize = 32;

/// Name of the manifest file at the package root.
pub const INDEX_FILE_NAME: &'static str = ".manderrow_content_index";

/// A relative path inside a package root, as its sequence of components.
#[derive(Debug, Clone)]
pub struct IndexPath(pub Vec<String>);

impl View for IndexPath {
    type V = Seq<Seq<char>>;

    open spec fn view(&self) -> Seq<Seq<char>> {
        self.0@.map_values(|s: String| s@)
    }
}

impl IndexPath {
    /// The path of the components, failing where one of them is not text.
    pub fn from_components(components: Vec<Option<String>>) -> (r: Option<IndexPath>)
        ensures
            r is None <==> exists|i: int|
                0 <= i < components@.len() && (#[trigger] components@[i]) is None,
            r matches Some(p) ==> p@.len() == components@.len() && forall|i: int|
                0 <= i < components@.len() ==> ((#[trigger] components@[i]) matches Some(c)
                    && p@[i] == c@),
    {
        let mut out: Vec<String> = Vec::new();
        let mut i: usize = 0;
        while i < components.len()
            invariant
                i <= components@.len(),
                out@.len() == i,
                forall|j: int| 0 <= j < i ==> ((#[trigger] components@[j]) matches Some(c)
                    && out@[j]@ == c@),
            decreases components@.len() - i,
        {
            match &components[i] {
                Some(c) => out.push(c.clone()),
                None => return None,
            }
            i = i + 1;
        }
        let p = IndexPath(out);
        assert forall|j: int| 0 <= j < components@.len() implies ((#[trigger] components@[j]) matches Some(c)
            && p@[j] == c@) by {}
        Some(p)
    }

    /// Whether two paths have the same components.
    pub fn same(&self, other: &IndexPath) -> (r: bool)
        ensures
            r == (self@ == other@),
    {
        let n = self.0.len();
        if n != other.0.len() {
            assert(self@.len() != other@.len());
            return false;
        }
        let mut i: usize = 0;
        while i < n
            invariant
                n == self.0@.len(),
                n == other.0@.len(),
                i <= n,
                forall|j: int| 0 <= j < i ==> self.0@[j]@ == other.0@[j]@,
            decreases n - i,
        {
            if self.0[i] != other.0[i] {
                assert(self@[i as int] != other@[i as int]);
                return false;
            }
            i = i + 1;
        }
        assert(self@ =~= other@);
        true
    }

    /// Whether this is the path of the manifest file.
    pub fn is_index_file(&self) -> (r: bool)
        ensures
            r == (self@ == seq![INDEX_FILE_NAME@]),
    {
        if self.0.len() != 1 {
            proof {
                assert(seq![INDEX_FILE_NAME@].len() == 1);
            }
            return false;
        }
        let r = crate::games::str_eq(self.0[0].as_str(), INDEX_FILE_NAME);
        proof {
            if r {
                assert(self@ =~= seq![INDEX_FILE_NAME@]);
            }
            if self@ == seq![INDEX_FILE_NAME@] {
                assert(self@[0] == INDEX_FILE_NAME@);
            }
        }
        r
    }
}

/// What the manifest records of one path.
#[derive(Debug, Clone)]
pub enum IndexEntryV1 {
    /// A regular file, with the digest of its content.
    File { hash: [u8; 32] },
    /// A symbolic link; the target is relative where it points inside the package.
    Symlink { target: String },
    /// A directory.
    Directory,
}

/// The versioned manifest of what a package shipped.
#[derive(Debug, Clone)]
pub enum Index {
    V1(Vec<(IndexPath, IndexEntryV1)>),
}

/// The index as it is read back from a manifest.
pub type ArchivedIndex = Index;

/// The entry recorded for `p`: that of the first record with that path.
pub open spec fn lookup(es: Seq<(IndexPath, IndexEntryV1)>, p: Seq<Seq<char>>) -> Option<
    IndexEntryV1,
>
    decreases es.len(),
{
    if es.len() == 0 {
        None
    } else if es[0].0@ == p {
        Some(es[0].1)
    } else {
        lookup(es.drop_first(), p)
    }
}

/// The recorded paths, in order.
pub open spec fn keys_of(recs: Seq<(IndexPath, IndexEntryV1)>) -> Seq<Seq<Seq<char>>> {
    recs.map_values(|r: (IndexPath, IndexEntryV1)| r.0@)
}

/// A well-formed index: one record per path, and none for the manifest file.
pub open spec fn index_wf(recs: Seq<(IndexPath, IndexEntryV1)>) -> bool {
    &&& forall|i: int, j: int|
        0 <= i < recs.len() && 0 <= j < recs.len() && i != j ==> (#[trigger] recs[i]).0@ != (
        #[trigger] recs[j]).0@
    &&& forall|i: int| 0 <= i < recs.len() ==> (#[trigger] recs[i]).0@ != seq![INDEX_FILE_NAME@]
}

impl Index {
    pub open spec fn wf(&self) -> bool {
        index_wf(self.records())
    }

    pub open spec fn records(&self) -> Seq<(IndexPath, IndexEntryV1)> {
        match self {
            Index::V1(v) => v@,
        }
    }

    /// The paths that the index records, in order.
    pub open spec fn keys(&self) -> Seq<Seq<Seq<char>>> {
        keys_of(self.records())
    }

    pub open spec fn spec_get(&self, p: Seq<Seq<char>>) -> Option<IndexEntryV1> {
        lookup(self.records(), p)
    }
}

pub proof fn lemma_lookup_some(es: Seq<(IndexPath, IndexEntryV1)>, p: Seq<Seq<char>>)
    ensures
        lookup(es, p) is Some <==> exists|i: int| 0 <= i < es.len() && (#[trigger] es[i]).0@ == p,
    decreases es.len(),
{
    if es.len() > 0 {
        lemma_lookup_some(es.drop_first(), p);
        if es[0].0@ != p {
            assert forall|i: int| 0 <= i < es.len() && (#[trigger] es[i]).0@ == p implies exists|
                j: int,
            | 0 <= j < es.drop_first().len() && (#[trigger] es.drop_first()[j]).0@ == p by {
                assert(es.drop_first()[i - 1] == es[i]);
            }
            assert forall|j: int|
                0 <= j < es.drop_first().len() && (#[trigger] es.drop_first()[j]).0@
                    == p implies exists|i: int| 0 <= i < es.len() && (#[trigger] es[i]).0@ == p by {
                assert(es[j + 1] == es.drop_first()[j]);
            }
        }
    }
}

impl ArchivedIndex {
    /// The entry recorded for `path`, if any.
    pub fn get<'a>(&'a self, path: &IndexPath) -> (r: Option<&'a IndexEntryV1>)
        ensures
            r matches Some(e) ==> self.spec_get(path@) == Some(*e),
            r is None ==> self.spec_get(path@) is None,
    {
        match self {
            Index::V1(entries) => {
                let mut i: usize = 0;
                assert(self.records() == entries@);
                assert(entries@.skip(0) =~= entries@);
                while i < entries.len()
                    invariant
                        i <= entries@.len(),
                        lookup(entries@, path@) == lookup(entries@.skip(i as int), path@),
                        self.records() == entries@,
                    decreases entries@.len() - i,
                {
                    assert(entries@.skip(i as int)[0] == entries@[i as int]);
                    if entries[i].0.same(path) {
                        assert(lookup(entries@.skip(i as int), path@) == Some(entries@[i as int].1));
                        return Some(&entries[i].1);
                    }
                    assert(entries@.skip(i as int).drop_first() =~= entries@.skip(i + 1));
                    i = i + 1;
                }
                None
            },
        }
    }
}

} // verus!
