//! The map from script names to the bytes gathered for them.

use crate::text::{chars_of, same_text, string_of, views};
use vstd::prelude::*;

verus! {

/// Script text by name. A name is either that of a maintainer script or that
/// of the fragments gathered for one (`<package>.<script>.debhelper`).
pub struct ScriptFragments {
    keys: Vec<Vec<char>>,
    values: Vec<Vec<u8>>,
}

proof fn lemma_index_of_unique(s: Seq<Seq<char>>, i: int)
    requires
        s.no_duplicates(),
        0 <= i < s.len(),
    ensures
        s.index_of(s[i]) == i,
{
    let j = s.index_of(s[i]);
    assert(0 <= j < s.len() && s[j] == s[i]);
}

impl View for ScriptFragments {
    type V = Map<Seq<char>, Seq<u8>>;

    closed spec fn view(&self) -> Map<Seq<char>, Seq<u8>> {
        Map::new(
            |k: Seq<char>| views(self.keys@).contains(k),
            |k: Seq<char>| self.values@[views(self.keys@).index_of(k)]@,
        )
    }
}

impl ScriptFragments {
    /// Every name is held once.
    pub closed spec fn wf(&self) -> bool {
        &&& self.keys@.len() == self.values@.len()
        &&& views(self.keys@).no_duplicates()
    }

    pub fn new() -> (r: ScriptFragments)
        ensures
            r.wf(),
            r@ == Map::<Seq<char>, Seq<u8>>::empty(),
    {
        let r = ScriptFragments { keys: Vec::new(), values: Vec::new() };
        assert(r@ =~= Map::<Seq<char>, Seq<u8>>::empty());
        r
    }

    fn position(&self, key: &Vec<char>) -> (r: Option<usize>)
        requires
            self.wf(),
        ensures
            match r {
                Some(i) => i < self.keys@.len() && self.keys@[i as int]@ == key@
                    && self@.contains_key(key@) && self@[key@] == self.values@[i as int]@,
                None => !views(self.keys@).contains(key@) && !self@.contains_key(key@),
            },
    {
        let mut i: usize = 0;
        while i < self.keys.len()
            invariant
                self.wf(),
                i <= self.keys.len(),
                forall|j: int| 0 <= j < i ==> self.keys@[j]@ != key@,
            decreases self.keys.len() - i,
        {
            if same_text(&self.keys[i], key) {
                proof {
                    assert(views(self.keys@)[i as int] == key@);
                    lemma_index_of_unique(views(self.keys@), i as int);
                }
                return Some(i);
            }
            i += 1;
        }
        None
    }

    /// How many names are held.
    pub fn len(&self) -> (n: usize)
        requires
            self.wf(),
        ensures
            self@.dom().finite(),
            n == self@.dom().len(),
    {
        proof {
            let ks = views(self.keys@);
            ks.unique_seq_to_set();
            assert(self@.dom() =~= ks.to_set());
        }
        self.keys.len()
    }

    pub fn is_empty(&self) -> (b: bool)
        requires
            self.wf(),
        ensures
            b == (self@ == Map::<Seq<char>, Seq<u8>>::empty()),
    {
        proof {
            if self.keys@.len() == 0 {
                assert(self@ =~= Map::<Seq<char>, Seq<u8>>::empty());
            } else {
                assert(views(self.keys@)[0] == self.keys@[0]@);
                assert(self@.contains_key(self.keys@[0]@));
            }
        }
        self.keys.len() == 0
    }

    pub fn contains_key(&self, key: &str) -> (b: bool)
        requires
            self.wf(),
        ensures
            b == self@.contains_key(key@),
    {
        let k = chars_of(key);
        self.position(&k).is_some()
    }

    /// The bytes held under `key`.
    pub fn get(&self, key: &str) -> (r: Option<&Vec<u8>>)
        requires
            self.wf(),
        ensures
            match r {
                Some(v) => self@.contains_key(key@) && self@[key@] == v@,
                None => !self@.contains_key(key@),
            },
    {
        let k = chars_of(key);
        match self.position(&k) {
            Some(i) => Some(&self.values[i]),
            None => None,
        }
    }

    /// Puts `value` under `key`, in place of what was there.
    pub fn insert(&mut self, key: &str, value: Vec<u8>)
        requires
            old(self).wf(),
        ensures
            final(self).wf(),
            final(self)@ == old(self)@.insert(key@, value@),
    {
        let k = chars_of(key);
        let ghost ks = views(self.keys@);
        let ghost vs = self.values@;
        match self.position(&k) {
            Some(i) => {
                self.values[i] = value;
                proof {
                    assert forall|x: Seq<char>| ks.contains(x) implies #[trigger] self@[x] == old(
                        self,
                    )@.insert(key@, value@)[x] by {
                        let j = ks.index_of(x);
                        if x == key@ {
                            lemma_index_of_unique(ks, i as int);
                        } else {
                            assert(j != i);
                        }
                    }
                    assert(self@ =~= old(self)@.insert(key@, value@));
                }
            },
            None => {
                self.keys.push(k);
                self.values.push(value);
                proof {
                    let ks2 = views(self.keys@);
                    assert(ks2 =~= ks.push(key@));
                    assert forall|x: Seq<char>| #[trigger]
                        ks2.contains(x) <==> (ks.contains(x) || x == key@) by {
                        if ks2.contains(x) {
                            let j = choose|j: int| 0 <= j < ks2.len() && ks2[j] == x;
                            if j < ks.len() {
                                assert(ks[j] == x);
                            }
                        }
                        if ks.contains(x) {
                            let j = choose|j: int| 0 <= j < ks.len() && ks[j] == x;
                            assert(ks2[j] == x);
                        }
                        if x == key@ {
                            assert(ks2[ks.len() as int] == x);
                        }
                    }
                    assert forall|x: Seq<char>| ks2.contains(x) implies #[trigger] self@[x] == old(
                        self,
                    )@.insert(key@, value@)[x] by {
                        let j = ks2.index_of(x);
                        if x == key@ {
                            lemma_index_of_unique(ks2, ks.len() as int);
                        } else {
                            let m = ks.index_of(x);
                            assert(ks2[m] == x);
                            lemma_index_of_unique(ks2, m);
                        }
                    }
                    assert(self@ =~= old(self)@.insert(key@, value@));
                }
            },
        }
    }

    /// Takes out what is held under `key`.
    pub fn remove(&mut self, key: &str) -> (r: Option<Vec<u8>>)
        requires
            old(self).wf(),
        ensures
            final(self).wf(),
            final(self)@ == old(self)@.remove(key@),
            match r {
                Some(v) => old(self)@.contains_key(key@) && old(self)@[key@] == v@,
                None => !old(self)@.contains_key(key@),
            },
    {
        let k = chars_of(key);
        let ghost ks = views(self.keys@);
        let ghost vs = self.values@;
        match self.position(&k) {
            Some(i) => {
                self.keys.remove(i);
                let v = self.values.remove(i);
                proof {
                    let ks2 = views(self.keys@);
                    assert(ks2 =~= ks.remove(i as int));
                    assert forall|x: Seq<char>| #[trigger]
                        ks2.contains(x) <==> (ks.contains(x) && x != key@) by {
                        if ks2.contains(x) {
                            let j = choose|j: int| 0 <= j < ks2.len() && ks2[j] == x;
                            assert(ks[i as int] == key@);
                            if j < i {
                                assert(ks[j] == x);
                            } else {
                                assert(ks[j + 1] == x);
                            }
                            assert(x != key@);
                        }
                        if ks.contains(x) && x != key@ {
                            let j = choose|j: int| 0 <= j < ks.len() && ks[j] == x;
                            if j < i {
                                assert(ks2[j] == x);
                            } else {
                                assert(ks2[j - 1] == x);
                            }
                        }
                    }
                    assert forall|x: Seq<char>| ks2.contains(x) implies #[trigger] self@[x] == old(
                        self,
                    )@[x] by {
                        let m = ks.index_of(x);
                        if m < i {
                            assert(ks2[m] == x);
                            lemma_index_of_unique(ks2, m);
                        } else {
                            assert(ks2[m - 1] == x);
                            lemma_index_of_unique(ks2, m - 1);
                        }
                    }
                    assert(self@ =~= old(self)@.remove(key@));
                }
                Some(v)
            },
            None => {
                assert(self@ =~= old(self)@.remove(key@));
                None
            },
        }
    }

    /// The names that are held.
    pub fn keys(&self) -> (r: Vec<String>)
        requires
            self.wf(),
        ensures
            r@.len() == self@.dom().len(),
            forall|i: int| 0 <= i < r@.len() ==> self@.contains_key(#[trigger] r@[i]@),
            forall|k: Seq<char>|
                self@.contains_key(k) ==> exists|i: int| 0 <= i < r@.len() && #[trigger] r@[i]@ == k,
    {
        let n = self.keys.len();
        proof {
            let ks = views(self.keys@);
            ks.unique_seq_to_set();
            assert(self@.dom() =~= ks.to_set());
        }
        let mut out: Vec<String> = Vec::new();
        let mut i: usize = 0;
        while i < self.keys.len()
            invariant
                i <= self.keys.len(),
                self.keys.len() == n,
                n == self@.dom().len(),
                out@.len() == i,
                forall|j: int| 0 <= j < i ==> (#[trigger] out@[j])@ == self.keys@[j]@,
            decreases self.keys.len() - i,
        {
            out.push(string_of(&self.keys[i]));
            i += 1;
        }
        proof {
            let ks = views(self.keys@);
            assert forall|j: int| 0 <= j < out@.len() implies self@.contains_key(
                #[trigger] out@[j]@,
            ) by {
                assert(ks[j] == out@[j]@);
            }
            assert forall|k: Seq<char>| self@.contains_key(k) implies exists|j: int|
                0 <= j < out@.len() && #[trigger] out@[j]@ == k by {
                let j = choose|j: int| 0 <= j < ks.len() && ks[j] == k;
                assert(out@[j]@ == k);
            }
        }
        out
    }
}

} // verus!
