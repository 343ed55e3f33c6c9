//! Small helpers shared by the modules: an ordered set of texts and the file
//! name of a path.

use crate::paths::{file_name, last_component};
use crate::text::{
    chars_of, is_before, join_all, lemma_text_before_irreflexive, lemma_text_before_total,
    lemma_text_before_transitive, same_text, string_of, text_before, views,
};
use vstd::prelude::*;

verus! {

/// Each text of `s` comes before the ones behind it.
pub open spec fn strictly_sorted(s: Seq<Seq<char>>) -> bool {
    forall|i: int, j: int| 0 <= i < j < s.len() ==> text_before(#[trigger] s[i], #[trigger] s[j])
}

/// A set of texts, kept in the order of `str`, each text once.
pub struct StringSet {
    items: Vec<Vec<char>>,
}

impl View for StringSet {
    type V = Seq<Seq<char>>;

    closed spec fn view(&self) -> Seq<Seq<char>> {
        views(self.items@)
    }
}

impl StringSet {
    /// The texts come in strictly rising order.
    pub open spec fn wf(&self) -> bool {
        strictly_sorted(self@)
    }

    /// The texts as a set.
    pub open spec fn set(&self) -> Set<Seq<char>> {
        self@.to_set()
    }

    pub fn new() -> (r: StringSet)
        ensures
            r@ == Seq::<Seq<char>>::empty(),
            r.wf(),
    {
        let r = StringSet { items: Vec::new() };
        assert(r@ =~= Seq::<Seq<char>>::empty());
        r
    }

    pub fn len(&self) -> (n: usize)
        ensures
            n == self@.len(),
    {
        self.items.len()
    }

    pub fn is_empty(&self) -> (b: bool)
        ensures
            b == (self@.len() == 0),
    {
        self.items.len() == 0
    }

    /// The text at place `i`, counted from 0 in rising order.
    pub fn get(&self, i: usize) -> (r: String)
        requires
            i < self@.len(),
        ensures
            r@ == self@[i as int],
    {
        string_of(&self.items[i])
    }

    pub fn contains(&self, s: &str) -> (b: bool)
        ensures
            b == self@.contains(s@),
    {
        let key = chars_of(s);
        let mut i: usize = 0;
        while i < self.items.len()
            invariant
                i <= self.items.len(),
                key@ == s@,
                forall|j: int| 0 <= j < i ==> self@[j] != s@,
            decreases self.items.len() - i,
        {
            if same_text(&self.items[i], &key) {
                assert(self@[i as int] == s@);
                return true;
            }
            i += 1;
        }
        false
    }

    /// Puts `s` into the set. Returns whether it was new.
    pub fn insert(&mut self, s: &str) -> (added: bool)
        requires
            old(self).wf(),
        ensures
            final(self).wf(),
            final(self).set() == old(self).set().insert(s@),
            added == !old(self)@.contains(s@),
            added == !old(self).set().contains(s@),
            !added ==> final(self)@ == old(self)@,
            added ==> final(self)@.len() == old(self)@.len() + 1,
    {
        self.insert_text(chars_of(s))
    }

    /// Puts the text `s` into the set. Returns whether it was new.
    pub fn insert_text(&mut self, s: Vec<char>) -> (added: bool)
        requires
            old(self).wf(),
        ensures
            final(self).wf(),
            final(self).set() == old(self).set().insert(s@),
            added == !old(self)@.contains(s@),
            added == !old(self).set().contains(s@),
            !added ==> final(self)@ == old(self)@,
            added ==> final(self)@.len() == old(self)@.len() + 1,
    {
        let key = s;
        let ghost before = self@;
        let mut k: usize = 0;
        while k < self.items.len() && is_before(&self.items[k], &key)
            invariant
                k <= self.items.len(),
                self@ == before,
                key@ == s@,
                forall|j: int| 0 <= j < k ==> text_before(#[trigger] before[j], s@),
            decreases self.items.len() - k,
        {
            k += 1;
        }
        if k < self.items.len() && same_text(&self.items[k], &key) {
            proof {
                assert(before[k as int] == s@);
                assert(before.to_set() =~= before.to_set().insert(s@));
            }
            return false;
        }
        proof {
            assert forall|j: int| 0 <= j < before.len() implies before[j] != s@ by {
                lemma_text_before_irreflexive(s@);
                if j > k {
                    lemma_text_before_total(before[k as int], s@);
                    lemma_text_before_transitive(s@, before[k as int], before[j]);
                } else if j == k {
                } else {
                }
            }
        }
        self.items.insert(k, key);
        proof {
            let after = self@;
            assert(after =~= before.insert(k as int, s@));
            assert forall|i: int, j: int| 0 <= i < j < after.len() implies text_before(
                #[trigger] after[i],
                #[trigger] after[j],
            ) by {
                if j == k {
                } else if i == k {
                    lemma_text_before_total(before[k as int], s@);
                    if j - 1 > k {
                        lemma_text_before_transitive(s@, before[k as int], before[j - 1]);
                    }
                } else if i < k && j > k {
                    assert(after[i] == before[i]);
                    assert(after[j] == before[j - 1]);
                } else if i < k {
                    assert(after[i] == before[i]);
                    assert(after[j] == before[j]);
                } else {
                    assert(after[i] == before[i - 1]);
                    assert(after[j] == before[j - 1]);
                }
            }
            assert forall|x: Seq<char>| after.to_set().contains(x) <==> before.to_set().insert(
                s@,
            ).contains(x) by {
                if after.contains(x) {
                    let i = choose|i: int| 0 <= i < after.len() && after[i] == x;
                    if i < k {
                        assert(before[i] == x);
                    } else if i > k {
                        assert(before[i - 1] == x);
                    }
                }
                if before.contains(x) {
                    let i = choose|i: int| 0 <= i < before.len() && before[i] == x;
                    if i < k {
                        assert(after[i] == x);
                    } else {
                        assert(after[i + 1] == x);
                    }
                }
                if x == s@ {
                    assert(after[k as int] == x);
                }
            }
            assert(after.to_set() =~= before.to_set().insert(s@));
        }
        true
    }

    /// The set that holds the texts of `items`.
    pub fn from_strs(items: &Vec<String>) -> (r: StringSet)
        ensures
            r.wf(),
            forall|x: Seq<char>|
                r.set().contains(x) <==> exists|i: int|
                    0 <= i < items.len() && #[trigger] items[i]@ == x,
    {
        let mut r = StringSet::new();
        let mut i: usize = 0;
        while i < items.len()
            invariant
                i <= items.len(),
                r.wf(),
                forall|x: Seq<char>|
                    r.set().contains(x) <==> exists|j: int|
                        0 <= j < i && #[trigger] items[j]@ == x,
            decreases items.len() - i,
        {
            let ghost before = r.set();
            r.insert(items[i].as_str());
            proof {
                assert forall|x: Seq<char>| r.set().contains(x) <==> exists|j: int|
                    0 <= j < i + 1 && #[trigger] items[j]@ == x by {
                    if r.set().contains(x) {
                        if x == items[i as int]@ {
                        } else {
                            assert(before.contains(x));
                            let j = choose|j: int| 0 <= j < i && #[trigger] items[j]@ == x;
                            assert(0 <= j < i + 1 && items[j]@ == x);
                        }
                    }
                    if exists|j: int| 0 <= j < i + 1 && #[trigger] items[j]@ == x {
                        let j = choose|j: int| 0 <= j < i + 1 && #[trigger] items[j]@ == x;
                        if j < i {
                            assert(before.contains(x));
                        }
                    }
                }
            }
            i += 1;
        }
        r
    }

    /// The texts in rising order, with `sep` between neighbours.
    pub fn join(&self, sep: &str) -> (r: String)
        ensures
            r@ == join_all(self@, sep@),
    {
        let sep_chars = chars_of(sep);
        let joined = crate::text::join(&self.items, &sep_chars);
        string_of(&joined)
    }

    /// The texts in rising order.
    pub fn to_vec(&self) -> (r: Vec<String>)
        ensures
            r@.len() == self@.len(),
            forall|i: int| 0 <= i < r@.len() ==> (#[trigger] r@[i])@ == self@[i],
    {
        let mut out: Vec<String> = Vec::new();
        let mut i: usize = 0;
        while i < self.items.len()
            invariant
                i <= self.items.len(),
                out@.len() == i,
                forall|j: int| 0 <= j < i ==> (#[trigger] out@[j])@ == self@[j],
            decreases self.items.len() - i,
        {
            out.push(string_of(&self.items[i]));
            i += 1;
        }
        out
    }
}

/// A sequence in rising order holds every text once.
pub proof fn lemma_sorted_holds_each_once(a: Seq<Seq<char>>)
    requires
        strictly_sorted(a),
    ensures
        a.no_duplicates(),
{
    assert forall|i: int, j: int| 0 <= i < a.len() && 0 <= j < a.len() && i != j implies a[i]
        != a[j] by {
        lemma_text_before_irreflexive(a[i]);
        if i < j {
            assert(text_before(a[i], a[j]));
        } else {
            assert(text_before(a[j], a[i]));
        }
    }
}

/// Two sets in rising order that hold the same texts are the same sequence.
pub proof fn lemma_sorted_unique(a: Seq<Seq<char>>, b: Seq<Seq<char>>)
    requires
        strictly_sorted(a),
        strictly_sorted(b),
        a.to_set() == b.to_set(),
    ensures
        a == b,
    decreases a.len(),
{
    if a.len() == 0 {
        if b.len() > 0 {
            assert(b.to_set().contains(b[0]));
            assert(a.contains(b[0]));
        }
        assert(a =~= b);
    } else if b.len() == 0 {
        assert(a.to_set().contains(a[0]));
        assert(b.contains(a[0]));
    } else {
        // the last items are the greatest of each, so they are equal
        let x = a.last();
        let y = b.last();
        assert(a.to_set().contains(x));
        assert(b.contains(x));
        assert(b.to_set().contains(y));
        assert(a.contains(y));
        let i = choose|i: int| 0 <= i < b.len() && b[i] == x;
        let j = choose|j: int| 0 <= j < a.len() && a[j] == y;
        lemma_text_before_irreflexive(x);
        if i < b.len() - 1 && j < a.len() - 1 {
            lemma_text_before_transitive(x, y, x);
        }
        assert(x == y);
        let a0 = a.drop_last();
        let b0 = b.drop_last();
        assert forall|z: Seq<char>| a0.to_set().contains(z) <==> b0.to_set().contains(z) by {
            if a0.contains(z) {
                let k = choose|k: int| 0 <= k < a0.len() && a0[k] == z;
                assert(a[k] == z);
                assert(text_before(z, x));
                assert(a.to_set().contains(z));
                assert(b.contains(z));
                let m = choose|m: int| 0 <= m < b.len() && b[m] == z;
                lemma_text_before_irreflexive(z);
                assert(m < b.len() - 1);
                assert(b0[m] == z);
            }
            if b0.contains(z) {
                let k = choose|k: int| 0 <= k < b0.len() && b0[k] == z;
                assert(b[k] == z);
                assert(text_before(z, y));
                assert(b.to_set().contains(z));
                assert(a.contains(z));
                let m = choose|m: int| 0 <= m < a.len() && a[m] == z;
                lemma_text_before_irreflexive(z);
                assert(m < a.len() - 1);
                assert(a0[m] == z);
            }
        }
        assert(a0.to_set() =~= b0.to_set());
        lemma_sorted_unique(a0, b0);
        assert(a =~= a0.push(x));
        assert(b =~= b0.push(y));
    }
}

/// The last component of `path`, taken as a file's name.
pub fn fname_from_path(path: &str) -> (r: String)
    requires
        file_name(path@) is Some,
    ensures
        r@ == file_name(path@)->0,
{
    match last_component(path) {
        Some(name) => name,
        None => String::new(),
    }
}

} // verus!
