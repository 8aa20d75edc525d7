//! An ordered list of header pairs. Duplicate names are kept: lookups take the
//! first pair that matches.
use vstd::prelude::*;
use crate::bridge::{lower_of, lowercase};

verus! {

/// Index of the first pair whose name satisfies `m`, if any.
pub open spec fn first_match(h: Seq<(String, String)>, m: spec_fn(Seq<char>) -> bool) -> Option<int> {
    if exists|i: int| 0 <= i < h.len() && m(h[i].0@) {
        Some(choose|i: int| 0 <= i < h.len() && m(h[i].0@) && forall|j: int| 0 <= j < i ==> !m(h[j].0@))
    } else {
        None
    }
}

/// The value of the first pair whose name satisfies `m`.
pub open spec fn first_value(h: Seq<(String, String)>, m: spec_fn(Seq<char>) -> bool) -> Option<Seq<char>> {
    match first_match(h, m) {
        Some(i) => Some(h[i].1@),
        None => None,
    }
}

pub open spec fn has_name(h: Seq<(String, String)>, key: Seq<char>) -> bool {
    exists|i: int| 0 <= i < h.len() && h[i].0@ == key
}

proof fn lemma_first_match(h: Seq<(String, String)>, m: spec_fn(Seq<char>) -> bool, i: int)
    requires
        0 <= i < h.len(),
        m(h[i].0@),
        forall|j: int| 0 <= j < i ==> !m(h[j].0@),
    ensures
        first_match(h, m) == Some(i),
{
    let k = choose|k: int| 0 <= k < h.len() && m(h[k].0@) && forall|j: int| 0 <= j < k ==> !m(h[j].0@);
    assert(0 <= k < h.len() && m(h[k].0@) && forall|j: int| 0 <= j < k ==> !m(h[j].0@));
    if k < i {
        assert(!m(h[k].0@));
    }
    if i < k {
        assert(!m(h[i].0@));
    }
}

/// A copy of the pairs.
pub fn clone_pairs(h: &Vec<(String, String)>) -> (r: Vec<(String, String)>)
    ensures
        r@ == h@,
{
    let mut r: Vec<(String, String)> = Vec::new();
    let mut i: usize = 0;
    while i < h.len()
        invariant
            i <= h@.len(),
            r@ == h@.subrange(0, i as int),
        decreases h@.len() - i,
    {
        let p = (h[i].0.clone(), h[i].1.clone());
        r.push(p);
        proof {
            assert(h@.subrange(0, i + 1) =~= h@.subrange(0, i as int).push(h@[i as int]));
        }
        i = i + 1;
    }
    proof {
        assert(h@.subrange(0, h@.len() as int) =~= h@);
    }
    r
}

/// Lookups on a list of `(name, value)` header pairs.
pub trait Headers {
    spec fn pairs(&self) -> Seq<(String, String)>;

    /// Whether some pair has exactly this name.
    fn contains_key(&self, key: &str) -> (r: bool)
        ensures
            r == has_name(self.pairs(), key@),
    ;

    /// The value of the first pair with exactly this name.
    fn get_value(&self, key: &str) -> (r: Option<String>)
        ensures
            r matches Some(v) ==> first_value(self.pairs(), |n: Seq<char>| n == key@) == Some(v@),
            r is None ==> first_value(self.pairs(), |n: Seq<char>| n == key@) is None,
    ;

    /// The value of the first pair whose name equals `key` once both are
    /// lower-cased.
    fn get_value_case_insensitive(&self, key: &str) -> (r: Option<String>)
        ensures
            r matches Some(v) ==> first_value(self.pairs(), |n: Seq<char>| lower_of(n) == lower_of(key@)) == Some(v@),
            r is None ==> first_value(self.pairs(), |n: Seq<char>| lower_of(n) == lower_of(key@)) is None,
    ;
}

impl Headers for Vec<(String, String)> {
    open spec fn pairs(&self) -> Seq<(String, String)> {
        self@
    }

    fn contains_key(&self, key: &str) -> (r: bool) {
        let ghost want = key@;
        let wanted = key.to_owned();
        let mut i: usize = 0;
        while i < self.len()
            invariant
                i <= self@.len(),
                wanted@ == want,
                want == key@,
                forall|j: int| 0 <= j < i ==> self@[j].0@ != want,
            decreases self@.len() - i,
        {
            if self[i].0.eq(&wanted) {
                assert(self@[i as int].0@ == want);
                return true;
            }
            i = i + 1;
        }
        false
    }

    fn get_value(&self, key: &str) -> (r: Option<String>) {
        let ghost m = |n: Seq<char>| n == key@;
        let owned = key.to_owned();
        let mut i: usize = 0;
        while i < self.len()
            invariant
                i <= self@.len(),
                owned@ == key@,
                forall|n: Seq<char>| #[trigger] m(n) == (n == key@),
                forall|j: int| 0 <= j < i ==> !m(self@[j].0@),
            decreases self@.len() - i,
        {
            let same = self[i].0.eq(&owned);
            if same {
                proof {
                    lemma_first_match(self@, m, i as int);
                }
                return Some(self[i].1.clone());
            }
            i = i + 1;
        }
        None
    }

    fn get_value_case_insensitive(&self, key: &str) -> (r: Option<String>) {
        let ghost m = |n: Seq<char>| lower_of(n) == lower_of(key@);
        let lkey = lowercase(key);
        let mut i: usize = 0;
        while i < self.len()
            invariant
                i <= self@.len(),
                lkey@ == lower_of(key@),
                forall|n: Seq<char>| #[trigger] m(n) == (lower_of(n) == lower_of(key@)),
                forall|j: int| 0 <= j < i ==> !m(self@[j].0@),
            decreases self@.len() - i,
        {
            let name = lowercase(self[i].0.as_str());
            if name.eq(&lkey) {
                proof {
                    lemma_first_match(self@, m, i as int);
                }
                return Some(self[i].1.clone());
            }
            i = i + 1;
        }
        None
    }
}

} // verus!
