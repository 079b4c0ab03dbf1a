//! Interned reference keys for classes (`cls:<fqcn>`).
use vstd::prelude::*;
use crate::text::{append_str, chars_of, string_of};

verus! {

broadcast use vstd::string::group_string_axioms;

/// The key naming class `fqcn` in reference maps.
pub open spec fn class_key(fqcn: Seq<char>) -> Seq<char> {
    "cls:"@ + fqcn
}

/// Class keys built so far, one per class name.
pub struct ReferenceKeyCache {
    class_keys: Vec<(String, String)>,
}

impl ReferenceKeyCache {
    /// `(class name, key)` pairs, in the order first asked for.
    pub closed spec fn entries(&self) -> Seq<(Seq<char>, Seq<char>)> {
        self.class_keys@.map_values(|e: (String, String)| (e.0@, e.1@))
    }

    pub open spec fn wf(&self) -> bool {
        &&& forall|i: int| 0 <= i < self.entries().len() ==> #[trigger] self.entries()[i].1 == class_key(
            self.entries()[i].0,
        )
        &&& forall|i: int, j: int|
            0 <= i < j < self.entries().len() ==> self.entries()[i].0 != self.entries()[j].0
    }

    pub fn new() -> (r: Self)
        ensures
            r.wf(),
            r.entries().len() == 0,
    {
        ReferenceKeyCache { class_keys: Vec::new() }
    }

    /// Number of classes with a key built so far.
    pub fn len(&self) -> (r: usize)
        ensures
            r == self.entries().len(),
    {
        self.class_keys.len()
    }

    /// The key for class `fqcn`, built on first use and reused after.
    pub fn class(&mut self, fqcn: &str) -> (r: String)
        requires
            old(self).wf(),
        ensures
            final(self).wf(),
            r@ == class_key(fqcn@),
            (exists|i: int| 0 <= i < old(self).entries().len() && old(self).entries()[i].0 == fqcn@)
                ==> final(self).entries() == old(self).entries(),
            !(exists|i: int| 0 <= i < old(self).entries().len() && old(self).entries()[i].0 == fqcn@)
                ==> final(self).entries() == old(self).entries().push((fqcn@, class_key(fqcn@))),
    {
        let want = chars_of(fqcn);
        let mut i: usize = 0;
        while i < self.class_keys.len()
            invariant
                i <= self.class_keys@.len(),
                want@ == fqcn@,
                self.wf(),
                self.entries() == old(self).entries(),
                forall|k: int| 0 <= k < i ==> self.entries()[k].0 != fqcn@,
            decreases self.class_keys.len() - i,
        {
            let have = chars_of(self.class_keys[i].0.as_str());
            proof {
                assert(self.entries()[i as int] == (self.class_keys@[i as int].0@, self.class_keys@[i as int].1@));
            }
            if crate::docblock::validate::chars_eq(have.as_slice(), want.as_slice()) {
                let key = self.class_keys[i].1.clone();
                proof {
                    assert(self.entries()[i as int].0 == fqcn@);
                    assert(self.entries()[i as int].1 == class_key(self.entries()[i as int].0));
                    assert(key@ == self.entries()[i as int].1);
                }
                return key;
            }
            i = i + 1;
        }
        let mut key: Vec<char> = chars_of("cls:");
        append_str(&mut key, fqcn);
        let k = string_of(&key);
        let ghost before = self.entries();
        self.class_keys.push((String::from_str(fqcn), k.clone()));
        proof {
            assert(self.entries() =~= before.push((fqcn@, class_key(fqcn@))));
        }
        k
    }
}

impl Default for ReferenceKeyCache {
    fn default() -> (r: Self)
        ensures
            r.wf(),
            r.entries().len() == 0,
    {
        ReferenceKeyCache::new()
    }
}

} // verus!
