//! A list of `(name, value)` string pairs used as a map: names are unique, and
//! inserting a present name replaces its value in place.
use vstd::prelude::*;

verus! {

pub open spec fn unique_keys(s: Seq<(String, String)>) -> bool {
    forall|i: int, j: int| 0 <= i < s.len() && 0 <= j < s.len() && i != j ==> #[trigger] s[i].0@ != #[trigger] s[j].0@
}

pub open spec fn has_key(s: Seq<(String, String)>, k: Seq<char>) -> bool {
    exists|i: int| 0 <= i < s.len() && #[trigger] s[i].0@ == k
}

pub open spec fn maps_to(s: Seq<(String, String)>, k: Seq<char>, v: Seq<char>) -> bool {
    exists|i: int| 0 <= i < s.len() && #[trigger] s[i].0@ == k && s[i].1@ == v
}

/// Whether some pair is named `k`.
pub fn has_key_exec(s: &Vec<(String, String)>, k: &String) -> (r: bool)
    ensures
        r == has_key(s@, k@),
{
    let mut i: usize = 0;
    while i < s.len()
        invariant
            i <= s@.len(),
            forall|j: int| 0 <= j < i ==> #[trigger] s@[j].0@ != k@,
        decreases s@.len() - i,
    {
        if s[i].0.eq(k) {
            assert(s@[i as int].0@ == k@);
            return true;
        }
        i = i + 1;
    }
    false
}

/// Sets `k` to `v`: the pair of that name takes the new value, or a new pair
/// is appended.
pub fn insert_pair(s: &mut Vec<(String, String)>, k: String, v: String)
    requires
        unique_keys(old(s)@),
    ensures
        unique_keys(final(s)@),
        forall|k2: Seq<char>| has_key(final(s)@, k2) <==> (k2 == k@ || has_key(old(s)@, k2)),
        forall|k2: Seq<char>, v2: Seq<char>|
            maps_to(final(s)@, k2, v2) <==> (if k2 == k@ {
                v2 == v@
            } else {
                maps_to(old(s)@, k2, v2)
            }),
{
    let mut i: usize = 0;
    while i < s.len()
        invariant
            i <= s@.len(),
            s@ == old(s)@,
            unique_keys(old(s)@),
            forall|j: int| 0 <= j < i ==> s@[j].0@ != k@,
        decreases s@.len() - i,
    {
        if s[i].0.eq(&k) {
            let ghost before = s@;
            let ghost kv = k@;
            let ghost vv = v@;
            s.set(i, (k, v));
            proof {
                assert(before[i as int].0@ == kv);
                assert(s@[i as int].0@ == kv && s@[i as int].1@ == vv);
                assert(forall|j: int| 0 <= j < s@.len() && j != i ==> s@[j] == before[j]);
                assert forall|a: int, b: int|
                    0 <= a < s@.len() && 0 <= b < s@.len() && a != b implies #[trigger] s@[a].0@ != #[trigger] s@[b].0@ by {
                    assert(before[a].0@ != before[b].0@);
                }
                assert forall|k2: Seq<char>| has_key(s@, k2) <==> (k2 == kv || has_key(before, k2)) by {
                    if has_key(before, k2) {
                        let j = choose|j: int| 0 <= j < before.len() && #[trigger] before[j].0@ == k2;
                        assert(s@[j].0@ == k2);
                    }
                    if has_key(s@, k2) {
                        let j = choose|j: int| 0 <= j < s@.len() && #[trigger] s@[j].0@ == k2;
                        if j != i {
                            assert(before[j].0@ == k2);
                        }
                    }
                    if k2 == kv {
                        assert(s@[i as int].0@ == k2);
                    }
                }
                assert forall|k2: Seq<char>, v2: Seq<char>|
                    maps_to(s@, k2, v2) <==> (if k2 == kv {
                        v2 == vv
                    } else {
                        maps_to(before, k2, v2)
                    }) by {
                    if maps_to(s@, k2, v2) {
                        let j = choose|j: int| 0 <= j < s@.len() && #[trigger] s@[j].0@ == k2 && s@[j].1@ == v2;
                        if j != i {
                            assert(before[j].0@ == k2 && before[j].1@ == v2);
                            if k2 == kv {
                                assert(before[i as int].0@ == before[j].0@);
                            }
                        }
                    }
                    if k2 == kv && v2 == vv {
                        assert(s@[i as int].0@ == k2 && s@[i as int].1@ == v2);
                    }
                    if k2 != kv && maps_to(before, k2, v2) {
                        let j = choose|j: int| 0 <= j < before.len() && #[trigger] before[j].0@ == k2 && before[j].1@ == v2;
                        assert(j != i);
                        assert(s@[j].0@ == k2 && s@[j].1@ == v2);
                    }
                }
            }
            return;
        }
        i = i + 1;
    }
    let ghost before = s@;
    let ghost kv = k@;
    let ghost vv = v@;
    s.push((k, v));
    proof {
        assert(s@[before.len() as int].0@ == kv && s@[before.len() as int].1@ == vv);
        assert(forall|j: int| 0 <= j < before.len() ==> s@[j] == before[j]);
        assert forall|a: int, b: int|
            0 <= a < s@.len() && 0 <= b < s@.len() && a != b implies #[trigger] s@[a].0@ != #[trigger] s@[b].0@ by {
            if a < before.len() && b < before.len() {
                assert(before[a].0@ != before[b].0@);
            }
        }
        assert forall|k2: Seq<char>| has_key(s@, k2) <==> (k2 == kv || has_key(before, k2)) by {
            if has_key(before, k2) {
                let j = choose|j: int| 0 <= j < before.len() && #[trigger] before[j].0@ == k2;
                assert(s@[j].0@ == k2);
            }
            if has_key(s@, k2) {
                let j = choose|j: int| 0 <= j < s@.len() && #[trigger] s@[j].0@ == k2;
                if j < before.len() {
                    assert(before[j].0@ == k2);
                }
            }
            if k2 == kv {
                assert(s@[before.len() as int].0@ == k2);
            }
        }
        assert forall|k2: Seq<char>, v2: Seq<char>|
            maps_to(s@, k2, v2) <==> (if k2 == kv {
                v2 == vv
            } else {
                maps_to(before, k2, v2)
            }) by {
            if maps_to(s@, k2, v2) {
                let j = choose|j: int| 0 <= j < s@.len() && #[trigger] s@[j].0@ == k2 && s@[j].1@ == v2;
                if j < before.len() {
                    assert(before[j].0@ == k2 && before[j].1@ == v2);
                }
            }
            if k2 == kv && v2 == vv {
                assert(s@[before.len() as int].0@ == k2 && s@[before.len() as int].1@ == v2);
            }
            if k2 != kv && maps_to(before, k2, v2) {
                let j = choose|j: int| 0 <= j < before.len() && #[trigger] before[j].0@ == k2 && before[j].1@ == v2;
                assert(s@[j].0@ == k2 && s@[j].1@ == v2);
            }
        }
    }
}

} // verus!
