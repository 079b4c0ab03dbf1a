//! Per-file store of first-pass definition snapshots, keyed by file and
//! checked against the file's content hash: an unchanged file skips parsing
//! and definition collection. What a snapshot holds is the caller's; the
//! store reads and writes whole snapshots and tracks whether it has changed
//! since it was last written out.
use vstd::prelude::*;
use crate::text::chars_of;

verus! {

broadcast use vstd::string::group_string_axioms;

/// Whether a file was a first-pass cache hit or miss.
#[derive(Debug, Clone, PartialEq, Eq)]
pub enum Pass1Status {
    Hit,
    /// Cache miss: carries the SHA-256 content hash for snapshot building.
    Miss(String),
}

/// File → (content hash, snapshot), and whether anything changed since the
/// last write-out.
pub struct Pass1Cache<S> {
    entries: Vec<(String, String, S)>,
    dirty: bool,
}

pub open spec fn file_at<S>(e: Seq<(String, String, S)>, i: int) -> Seq<char> {
    e[i].0@
}

pub open spec fn has_entry<S>(e: Seq<(String, String, S)>, file: Seq<char>) -> bool {
    exists|i: int| 0 <= i < e.len() && #[trigger] file_at(e, i) == file
}

pub open spec fn files_unique<S>(e: Seq<(String, String, S)>) -> bool {
    forall|i: int, j: int| 0 <= i < j < e.len() ==> file_at(e, i) != file_at(e, j)
}

/// The entry stored for `file`, as plain values.
pub open spec fn entry_for<S>(e: Seq<(String, String, S)>, file: Seq<char>) -> (Seq<char>, S) {
    let i = choose|i: int| 0 <= i < e.len() && #[trigger] file_at(e, i) == file;
    (e[i].1@, e[i].2)
}

/// The snapshot cached for `file` under `hash`: only an entry whose content
/// hash matches counts.
pub open spec fn cached<S>(m: Map<Seq<char>, (Seq<char>, S)>, file: Seq<char>, hash: Seq<char>) -> Option<S> {
    if m.contains_key(file) && m[file].0 == hash {
        Some(m[file].1)
    } else {
        None
    }
}

fn same(a: &String, b: &str) -> (r: bool)
    ensures
        r == (a@ == b@),
{
    let x = chars_of(a.as_str());
    let y = chars_of(b);
    crate::docblock::validate::chars_eq(x.as_slice(), y.as_slice())
}

impl<S> View for Pass1Cache<S> {
    type V = Map<Seq<char>, (Seq<char>, S)>;

    closed spec fn view(&self) -> Map<Seq<char>, (Seq<char>, S)> {
        Map::new(|f: Seq<char>| has_entry(self.entries@, f), |f: Seq<char>| entry_for(self.entries@, f))
    }
}

impl<S> Pass1Cache<S> {
    pub closed spec fn wf(&self) -> bool {
        files_unique(self.entries@)
    }

    /// Whether entries were stored since the cache was last written out.
    pub closed spec fn is_dirty(&self) -> bool {
        self.dirty
    }

    /// An empty cache with nothing to write out.
    pub fn new() -> (r: Self)
        ensures
            r.wf(),
            r@ == Map::<Seq<char>, (Seq<char>, S)>::empty(),
            !r.is_dirty(),
    {
        let r = Pass1Cache { entries: Vec::new(), dirty: false };
        assert(r@ =~= Map::<Seq<char>, (Seq<char>, S)>::empty());
        r
    }

    fn index_of(&self, file: &str) -> (r: Option<usize>)
        requires
            self.wf(),
        ensures
            match r {
                Some(i) => i < self.entries@.len() && file_at(self.entries@, i as int) == file@,
                None => !has_entry(self.entries@, file@),
            },
    {
        let mut i: usize = 0;
        while i < self.entries.len()
            invariant
                i <= self.entries@.len(),
                forall|k: int| 0 <= k < i ==> file_at(self.entries@, k) != file@,
            decreases self.entries.len() - i,
        {
            if same(&self.entries[i].0, file) {
                return Some(i);
            }
            i = i + 1;
        }
        None
    }

    /// The snapshot for `file` if it is cached with a matching content hash.
    pub fn get(&self, file: &str, content_hash: &str) -> (r: Option<&S>)
        requires
            self.wf(),
        ensures
            match r {
                Some(s) => cached(self@, file@, content_hash@) == Some(*s),
                None => cached(self@, file@, content_hash@) is None,
            },
    {
        match self.index_of(file) {
            Some(i) => {
                proof {
                    assert(has_entry(self.entries@, file@));
                    let j = choose|j: int| 0 <= j < self.entries@.len() && #[trigger] file_at(self.entries@, j) == file@;
                    assert(j == i);
                }
                if same(&self.entries[i].1, content_hash) {
                    Some(&self.entries[i].2)
                } else {
                    None
                }
            },
            None => None,
        }
    }

    /// Stores a snapshot for `file`, replacing any earlier entry.
    pub fn put(&mut self, file: &str, content_hash: String, snapshot: S)
        requires
            old(self).wf(),
        ensures
            final(self).wf(),
            final(self)@ == old(self)@.insert(file@, (content_hash@, snapshot)),
            final(self).is_dirty(),
    {
        let ghost e0 = self.entries@;
        let ghost m0 = self@;
        let ghost hv = content_hash@;
        match self.index_of(file) {
            Some(i) => {
                let key = String::from_str(file);
                self.entries.set(i, (key, content_hash, snapshot));
                proof {
                    let e1 = self.entries@;
                    assert forall|k: int| 0 <= k < e1.len() implies #[trigger] file_at(e1, k) == file_at(e0, k) by {}
                    assert forall|f: Seq<char>| #[trigger] has_entry(e1, f) == has_entry(e0, f) by {
                        if has_entry(e1, f) {
                            let k = choose|k: int| 0 <= k < e1.len() && #[trigger] file_at(e1, k) == f;
                            assert(file_at(e0, k) == f);
                        }
                        if has_entry(e0, f) {
                            let k = choose|k: int| 0 <= k < e0.len() && #[trigger] file_at(e0, k) == f;
                            assert(file_at(e1, k) == f);
                        }
                    }
                    assert forall|f: Seq<char>| has_entry(e1, f) implies #[trigger] entry_for(e1, f) == (if f == file@ {
                        (hv, snapshot)
                    } else {
                        entry_for(e0, f)
                    }) by {
                        let k1 = choose|k: int| 0 <= k < e1.len() && #[trigger] file_at(e1, k) == f;
                        let k0 = choose|k: int| 0 <= k < e0.len() && #[trigger] file_at(e0, k) == f;
                        assert(file_at(e0, k1) == f);
                        assert(k0 == k1);
                    }
                    assert(self@ =~= m0.insert(file@, (hv, snapshot)));
                }
            },
            None => {
                let key = String::from_str(file);
                self.entries.push((key, content_hash, snapshot));
                proof {
                    let e1 = self.entries@;
                    let n = e0.len() as int;
                    assert forall|k: int| 0 <= k < n implies #[trigger] file_at(e1, k) == file_at(e0, k) by {}
                    assert(file_at(e1, n) == file@);
                    assert forall|f: Seq<char>| #[trigger] has_entry(e1, f) == (has_entry(e0, f) || f == file@) by {
                        if has_entry(e1, f) {
                            let k = choose|k: int| 0 <= k < e1.len() && #[trigger] file_at(e1, k) == f;
                            if k < n {
                                assert(file_at(e0, k) == f);
                            }
                        }
                        if has_entry(e0, f) {
                            let k = choose|k: int| 0 <= k < e0.len() && #[trigger] file_at(e0, k) == f;
                            assert(file_at(e1, k) == f);
                        }
                    }
                    assert forall|f: Seq<char>| has_entry(e1, f) implies #[trigger] entry_for(e1, f) == (if f == file@ {
                        (hv, snapshot)
                    } else {
                        entry_for(e0, f)
                    }) by {
                        let k1 = choose|k: int| 0 <= k < e1.len() && #[trigger] file_at(e1, k) == f;
                        if f == file@ {
                            if k1 < n {
                                assert(file_at(e0, k1) == f);
                            }
                            assert(k1 == n);
                        } else {
                            let k0 = choose|k: int| 0 <= k < e0.len() && #[trigger] file_at(e0, k) == f;
                            assert(file_at(e1, k0) == f);
                            assert(k1 < n);
                            assert(k0 == k1);
                        }
                    }
                    assert(self@ =~= m0.insert(file@, (hv, snapshot)));
                }
            },
        }
        self.dirty = true;
    }

    /// Whether the cache has to be written out.
    pub fn needs_flush(&self) -> (r: bool)
        ensures
            r == self.is_dirty(),
    {
        self.dirty
    }

    /// Records that the cache was written out.
    pub fn mark_flushed(&mut self)
        ensures
            final(self)@ == old(self)@,
            final(self).wf() == old(self).wf(),
            !final(self).is_dirty(),
    {
        self.dirty = false;
    }

    /// The stored entries `(file, content hash, snapshot)`, one per file.
    pub fn entries(&self) -> (r: &Vec<(String, String, S)>)
        requires
            self.wf(),
        ensures
            forall|i: int| 0 <= i < r@.len() ==> #[trigger] self@.contains_key(r@[i].0@) && self@[r@[i].0@] == (
                r@[i].1@,
                r@[i].2,
            ),
            forall|f: Seq<char>| #[trigger] self@.contains_key(f) ==> exists|i: int| 0 <= i < r@.len() && r@[i].0@ == f,
            files_unique(r@),
    {
        proof {
            let e = self.entries@;
            assert forall|i: int| 0 <= i < e.len() implies #[trigger] self@.contains_key(e[i].0@) && self@[e[i].0@] == (
                e[i].1@,
                e[i].2,
            ) by {
                assert(file_at(e, i) == e[i].0@);
                let k = choose|k: int| 0 <= k < e.len() && #[trigger] file_at(e, k) == e[i].0@;
                assert(k == i);
            }
            assert forall|f: Seq<char>| #[trigger] self@.contains_key(f) implies exists|i: int| 0 <= i < e.len() && e[i].0@ == f by {
                let k = choose|k: int| 0 <= k < e.len() && #[trigger] file_at(e, k) == f;
                assert(e[k].0@ == f);
            }
        }
        &self.entries
    }
}

/// A snapshot stored under a content hash is found under that hash, a
/// changed hash misses, and other files are untouched.
pub proof fn lemma_get_after_put<S>(
    m: Map<Seq<char>, (Seq<char>, S)>,
    file: Seq<char>,
    hash: Seq<char>,
    snapshot: S,
    other: Seq<char>,
    other_hash: Seq<char>,
)
    ensures
        cached(m.insert(file, (hash, snapshot)), file, hash) == Some(snapshot),
        other_hash != hash ==> cached(m.insert(file, (hash, snapshot)), file, other_hash) is None,
        other != file ==> cached(m.insert(file, (hash, snapshot)), other, other_hash) == cached(m, other, other_hash),
{
}

} // verus!
