//! The reverse dependency graph of a project: for each file, the other files
//! that refer to a symbol it defines. A change to a file invalidates the
//! analysis of exactly its dependents.
use vstd::prelude::*;
use crate::text::{chars_of, copy_range, find_sub, string_of};

verus! {

broadcast use vstd::string::group_string_axioms;

/// Defining file → the files that depend on it.
pub struct ReverseDeps {
    entries: Vec<(String, Vec<String>)>,
}

pub open spec fn entries_view(e: Seq<(String, Vec<String>)>) -> Seq<(Seq<char>, Seq<Seq<char>>)> {
    e.map_values(|x: (String, Vec<String>)| (x.0@, x.1@.map_values(|s: String| s@)))
}

/// The dependents recorded for `file`.
pub open spec fn dependents_in(v: Seq<(Seq<char>, Seq<Seq<char>>)>, file: Seq<char>) -> Set<Seq<char>> {
    Set::new(|d: Seq<char>| exists|i: int| 0 <= i < v.len() && v[i].0 == file && #[trigger] v[i].1.contains(d))
}

pub open spec fn has_file(v: Seq<(Seq<char>, Seq<Seq<char>>)>, file: Seq<char>) -> bool {
    exists|i: int| 0 <= i < v.len() && #[trigger] v[i].0 == file
}

/// Each defining file listed once, each dependent once under it, at least
/// one dependent per file, and no file its own dependent.
pub open spec fn deps_wf(v: Seq<(Seq<char>, Seq<Seq<char>>)>) -> bool {
    &&& forall|i: int, j: int| 0 <= i < j < v.len() ==> v[i].0 != v[j].0
    &&& forall|i: int| 0 <= i < v.len() ==> (#[trigger] v[i].1).no_duplicates()
    &&& forall|i: int| 0 <= i < v.len() ==> (#[trigger] v[i].1).len() > 0
    &&& forall|i: int| 0 <= i < v.len() ==> !(#[trigger] v[i].1).contains(v[i].0)
}

impl View for ReverseDeps {
    type V = Map<Seq<char>, Set<Seq<char>>>;

    closed spec fn view(&self) -> Map<Seq<char>, Set<Seq<char>>> {
        let v = entries_view(self.entries@);
        Map::new(|f: Seq<char>| has_file(v, f), |f: Seq<char>| dependents_in(v, f))
    }
}

/// The graph after `dependent` is recorded as depending on a symbol defined
/// in `defining` (when the symbol's file is known): an edge is added unless
/// the two files are the same.
pub open spec fn with_edge(
    m: Map<Seq<char>, Set<Seq<char>>>,
    defining: Option<Seq<char>>,
    dependent: Seq<char>,
) -> Map<Seq<char>, Set<Seq<char>>> {
    match defining {
        Some(def) => if def != dependent {
            m.insert(
                def,
                (if m.contains_key(def) {
                    m[def]
                } else {
                    Set::empty()
                }).insert(dependent),
            )
        } else {
            m
        },
        None => m,
    }
}

fn same(a: &String, b: &str) -> (r: bool)
    ensures
        r == (a@ == b@),
{
    let x = chars_of(a.as_str());
    let y = chars_of(b);
    crate::docblock::validate::chars_eq(x.as_slice(), y.as_slice())
}

impl ReverseDeps {
    pub closed spec fn wf(&self) -> bool {
        deps_wf(entries_view(self.entries@))
    }

    pub fn new() -> (r: Self)
        ensures
            r.wf(),
            r@ == Map::<Seq<char>, Set<Seq<char>>>::empty(),
    {
        let r = ReverseDeps { entries: Vec::new() };
        assert(r@ =~= Map::<Seq<char>, Set<Seq<char>>>::empty());
        r
    }

    /// Position of `file` among the defining files.
    fn index_of(&self, file: &str) -> (r: Option<usize>)
        requires
            self.wf(),
        ensures
            match r {
                Some(i) => i < self.entries@.len() && self.entries@[i as int].0@ == file@,
                None => !has_file(entries_view(self.entries@), file@),
            },
    {
        let ghost v = entries_view(self.entries@);
        let mut i: usize = 0;
        while i < self.entries.len()
            invariant
                i <= self.entries@.len(),
                v == entries_view(self.entries@),
                forall|k: int| 0 <= k < i ==> v[k].0 != file@,
            decreases self.entries.len() - i,
        {
            if same(&self.entries[i].0, file) {
                return Some(i);
            }
            assert(v[i as int].0 == self.entries@[i as int].0@);
            i = i + 1;
        }
        None
    }

    /// Records that `dependent` refers to a symbol defined in
    /// `defining_file` (`None` when the symbol's file is unknown).
    pub fn add_edge(&mut self, defining_file: Option<&str>, dependent: &str)
        requires
            old(self).wf(),
        ensures
            final(self).wf(),
            final(self)@ == with_edge(
                old(self)@,
                match defining_file {
                    Some(d) => Some(d@),
                    None => None,
                },
                dependent@,
            ),
    {
        let def = match defining_file {
            Some(d) => d,
            None => {
                return;
            },
        };
        let dc = chars_of(def);
        let pc = chars_of(dependent);
        if crate::docblock::validate::chars_eq(dc.as_slice(), pc.as_slice()) {
            return;
        }
        let ghost v0 = entries_view(self.entries@);
        let ghost m0 = self@;
        match self.index_of(def) {
            Some(i) => {
                let mut list = Vec::new();
                std::mem::swap(&mut list, &mut self.entries[i].1);
                let ghost l0 = list@.map_values(|s: String| s@);
                assert(l0 == v0[i as int].1);
                let mut present = false;
                let mut j: usize = 0;
                while j < list.len()
                    invariant
                        j <= list@.len(),
                        l0 == list@.map_values(|s: String| s@),
                        present <==> exists|k: int| 0 <= k < j && l0[k] == dependent@,
                    decreases list.len() - j,
                {
                    if same(&list[j], dependent) {
                        present = true;
                    }
                    assert(l0[j as int] == list@[j as int]@);
                    j = j + 1;
                }
                if !present {
                    list.push(String::from_str(dependent));
                }
                std::mem::swap(&mut list, &mut self.entries[i].1);
                proof {
                    let v1 = entries_view(self.entries@);
                    let l1 = v1[i as int].1;
                    if present {
                        assert(l1 =~= l0);
                        assert(l0.contains(dependent@));
                    } else {
                        assert(l1 =~= l0.push(dependent@));
                        assert(!l0.contains(dependent@));
                    }
                    assert forall|k: int| 0 <= k < v1.len() && k != i implies v1[k] == v0[k] by {}
                    assert(v1[i as int].0 == v0[i as int].0);
                    assert forall|x: Seq<char>| #[trigger] l1.contains(x) == (l0.contains(x) || x == dependent@) by {
                        if l1.contains(x) {
                            let k = choose|k: int| 0 <= k < l1.len() && l1[k] == x;
                            if !present && k == l0.len() {
                                assert(x == dependent@);
                            } else {
                                assert(l0[k] == x);
                            }
                        }
                        if l0.contains(x) {
                            let k = choose|k: int| 0 <= k < l0.len() && l0[k] == x;
                            assert(l1[k] == x);
                        }
                        if x == dependent@ && !present {
                            assert(l1[l0.len() as int] == x);
                        }
                    }
                    assert(l1.to_set() =~= l0.to_set().insert(dependent@));
                    assert forall|f: Seq<char>| #[trigger] dependents_in(v1, f) == (if f == def@ {
                        dependents_in(v0, f).insert(dependent@)
                    } else {
                        dependents_in(v0, f)
                    }) by {
                        if f == def@ {
                            assert forall|d: Seq<char>| dependents_in(v1, f).contains(d) == dependents_in(v0, f).insert(dependent@).contains(d) by {
                                if dependents_in(v1, f).contains(d) {
                                    let k = choose|k: int| 0 <= k < v1.len() && v1[k].0 == f && #[trigger] v1[k].1.contains(d);
                                    assert(k == i);
                                    if d != dependent@ {
                                        assert(l0.to_set().contains(d));
                                        assert(v0[i as int].1.contains(d));
                                    }
                                }
                                if dependents_in(v0, f).insert(dependent@).contains(d) {
                                    if d == dependent@ {
                                        assert(l1.to_set().contains(d));
                                        assert(v1[i as int].1.contains(d));
                                    } else {
                                        let k = choose|k: int| 0 <= k < v0.len() && v0[k].0 == f && #[trigger] v0[k].1.contains(d);
                                        assert(k == i);
                                        assert(l1.to_set().contains(d));
                                        assert(v1[i as int].1.contains(d));
                                    }
                                }
                            }
                            assert(dependents_in(v1, f) =~= dependents_in(v0, f).insert(dependent@));
                        } else {
                            assert(dependents_in(v1, f) =~= dependents_in(v0, f));
                        }
                    }
                    assert forall|f: Seq<char>| #[trigger] has_file(v1, f) == has_file(v0, f) by {
                        if has_file(v1, f) {
                            let k = choose|k: int| 0 <= k < v1.len() && #[trigger] v1[k].0 == f;
                            assert(v0[k].0 == f);
                        }
                        if has_file(v0, f) {
                            let k = choose|k: int| 0 <= k < v0.len() && #[trigger] v0[k].0 == f;
                            assert(v1[k].0 == f);
                        }
                    }
                    assert(has_file(v0, def@));
                    assert(self@ =~= with_edge(m0, Some(def@), dependent@));
                }
            },
            None => {
                let mut list: Vec<String> = Vec::new();
                list.push(String::from_str(dependent));
                assert(list@.map_values(|s: String| s@) =~= seq![dependent@]);
                let ghost e0 = self.entries@;
                let entry = (String::from_str(def), list);
                self.entries.push(entry);
                proof {
                    let v1 = entries_view(self.entries@);
                    let n = v0.len();
                    assert(self.entries@ == e0.push(entry));
                    assert(v1[n as int] == (def@, seq![dependent@]));
                    assert(v1 =~= v0.push((def@, seq![dependent@])));
                    assert forall|f: Seq<char>| #[trigger] dependents_in(v1, f) == (if f == def@ {
                        set![dependent@]
                    } else {
                        dependents_in(v0, f)
                    }) by {
                        if f == def@ {
                            assert forall|d: Seq<char>| dependents_in(v1, f).contains(d) == (d == dependent@) by {
                                if dependents_in(v1, f).contains(d) {
                                    let k = choose|k: int| 0 <= k < v1.len() && v1[k].0 == f && #[trigger] v1[k].1.contains(d);
                                    if k < n {
                                        assert(has_file(v0, def@));
                                    }
                                    assert(k == n);
                                }
                                if d == dependent@ {
                                    assert(v1[n as int].1[0] == d);
                                    assert(v1[n as int].1.contains(d));
                                }
                            }
                            assert(dependents_in(v1, f) =~= set![dependent@]);
                        } else {
                            assert forall|d: Seq<char>| dependents_in(v1, f).contains(d) == dependents_in(v0, f).contains(d) by {
                                if dependents_in(v1, f).contains(d) {
                                    let k = choose|k: int| 0 <= k < v1.len() && v1[k].0 == f && #[trigger] v1[k].1.contains(d);
                                    assert(k < n);
                                    assert(v0[k].1.contains(d));
                                }
                                if dependents_in(v0, f).contains(d) {
                                    let k = choose|k: int| 0 <= k < v0.len() && v0[k].0 == f && #[trigger] v0[k].1.contains(d);
                                    assert(v1[k].1.contains(d));
                                }
                            }
                            assert(dependents_in(v1, f) =~= dependents_in(v0, f));
                        }
                    }
                    assert forall|f: Seq<char>| #[trigger] has_file(v1, f) == (has_file(v0, f) || f == def@) by {
                        if has_file(v1, f) {
                            let k = choose|k: int| 0 <= k < v1.len() && #[trigger] v1[k].0 == f;
                            if k < n {
                                assert(v0[k].0 == f);
                            }
                        }
                        if has_file(v0, f) {
                            let k = choose|k: int| 0 <= k < v0.len() && #[trigger] v0[k].0 == f;
                            assert(v1[k].0 == f);
                        }
                        if f == def@ {
                            assert(v1[n as int].0 == f);
                        }
                    }
                    assert(!m0.contains_key(def@));
                    assert(Set::<Seq<char>>::empty().insert(dependent@) =~= set![dependent@]);
                    assert(self@ =~= with_edge(m0, Some(def@), dependent@));
                }
            },
        }
    }

    /// The files that depend on `file`, each once, in the order they were
    /// first recorded.
    pub fn dependents(&self, file: &str) -> (r: Vec<String>)
        requires
            self.wf(),
        ensures
            r@.map_values(|s: String| s@).no_duplicates(),
            r@.map_values(|s: String| s@).to_set() == (if self@.contains_key(file@) {
                self@[file@]
            } else {
                Set::empty()
            }),
    {
        let ghost v = entries_view(self.entries@);
        match self.index_of(file) {
            Some(i) => {
                let r = self.entries[i].1.clone();
                proof {
                    assert(r@.map_values(|s: String| s@) =~= v[i as int].1);
                    assert(has_file(v, file@));
                    assert forall|d: Seq<char>| #[trigger] dependents_in(v, file@).contains(d) == v[i as int].1.contains(d) by {
                        if dependents_in(v, file@).contains(d) {
                            let k = choose|k: int| 0 <= k < v.len() && v[k].0 == file@ && #[trigger] v[k].1.contains(d);
                            assert(k == i);
                        }
                    }
                    assert(v[i as int].1.to_set() =~= dependents_in(v, file@));
                }
                r
            },
            None => {
                let r: Vec<String> = Vec::new();
                proof {
                    assert(r@.map_values(|s: String| s@).to_set() =~= Set::<Seq<char>>::empty());
                }
                r
            },
        }
    }
}

/// The symbol a recorded reference resolves to: the class of a
/// `Class::member` key, or the key itself.
pub open spec fn reference_symbol(key: Seq<char>) -> Seq<char> {
    let k = find_sub(key, "::"@);
    if k < key.len() {
        key.take(k)
    } else {
        key
    }
}

/// The symbol whose defining file a reference `symbol_key` depends on.
pub fn reference_lookup(symbol_key: &str) -> (r: String)
    ensures
        r@ == reference_symbol(symbol_key@),
{
    let cs = chars_of(symbol_key);
    let sep = chars_of("::");
    proof {
        reveal_strlit("::");
        assert(cs@.skip(0) =~= cs@);
    }
    match crate::text::find_sub_from(cs.as_slice(), 0, sep.as_slice()) {
        Some(k) => {
            let head = copy_range(cs.as_slice(), 0, k);
            proof {
                assert(head@ =~= cs@.take(k as int));
            }
            string_of(&head)
        },
        None => String::from_str(symbol_key),
    }
}

/// No file is ever recorded as depending on itself.
pub proof fn lemma_no_self_dependency(g: ReverseDeps, file: Seq<char>)
    requires
        g.wf(),
    ensures
        g@.contains_key(file) ==> !g@[file].contains(file),
{
    let v = entries_view(g.entries@);
    if g@.contains_key(file) && g@[file].contains(file) {
        let k = choose|k: int| 0 <= k < v.len() && v[k].0 == file && #[trigger] v[k].1.contains(file);
        assert(!v[k].1.contains(v[k].0));
    }
}

/// A recorded edge is there afterwards; an edge between a file and itself
/// is never recorded.
pub proof fn lemma_edge_recorded(m: Map<Seq<char>, Set<Seq<char>>>, def: Seq<char>, dependent: Seq<char>)
    ensures
        def != dependent ==> with_edge(m, Some(def), dependent)[def].contains(dependent),
        def == dependent ==> with_edge(m, Some(def), dependent) == m,
        with_edge(m, None, dependent) == m,
{
}

} // verus!
