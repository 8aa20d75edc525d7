//! Character-sequence toolkit: the spec functions that describe substring
//! search, replacement, counting, joining and decimal rendering, and the
//! executable functions proved against them.
use vstd::prelude::*;

verus! {

/// `p` occurs in `s` at position `i`.
pub open spec fn occurs_at(s: Seq<char>, i: int, p: Seq<char>) -> bool {
    0 <= i && i + p.len() <= s.len() && s.subrange(i, i + p.len()) == p
}

/// `p` occurs somewhere in `s`.
pub open spec fn contains(s: Seq<char>, p: Seq<char>) -> bool {
    exists|i: int| occurs_at(s, i, p)
}

/// Every non-overlapping occurrence of `from`, scanning left to right, is
/// replaced by `to`. An empty `from` leaves `s` as it is.
pub open spec fn replace_spec(s: Seq<char>, from: Seq<char>, to: Seq<char>) -> Seq<char>
    decreases s.len(),
{
    if from.len() == 0 || s.len() == 0 {
        s
    } else if occurs_at(s, 0, from) {
        to + replace_spec(s.subrange(from.len() as int, s.len() as int), from, to)
    } else {
        seq![s[0]] + replace_spec(s.subrange(1, s.len() as int), from, to)
    }
}

/// Number of non-overlapping occurrences of `p` in `s`, scanning left to
/// right; the empty pattern matches at each of the `s.len() + 1` boundaries.
pub open spec fn count_spec(s: Seq<char>, p: Seq<char>) -> nat
    decreases s.len(),
{
    if p.len() == 0 {
        s.len() + 1
    } else if s.len() == 0 {
        0
    } else if occurs_at(s, 0, p) {
        1 + count_spec(s.subrange(p.len() as int, s.len() as int), p)
    } else {
        count_spec(s.subrange(1, s.len() as int), p)
    }
}

/// The parts, in order, with `sep` between each two neighbours.
pub open spec fn join_spec(parts: Seq<Seq<char>>, sep: Seq<char>) -> Seq<char>
    decreases parts.len(),
{
    if parts.len() == 0 {
        Seq::empty()
    } else if parts.len() == 1 {
        parts[0]
    } else {
        join_spec(parts.drop_last(), sep) + sep + parts.last()
    }
}

pub open spec fn digit_char(d: nat) -> char {
    if d == 0 { '0' }
    else if d == 1 { '1' }
    else if d == 2 { '2' }
    else if d == 3 { '3' }
    else if d == 4 { '4' }
    else if d == 5 { '5' }
    else if d == 6 { '6' }
    else if d == 7 { '7' }
    else if d == 8 { '8' }
    else { '9' }
}

/// Decimal notation of `n`, without leading zeros.
pub open spec fn decimal_spec(n: nat) -> Seq<char>
    decreases n,
{
    if n < 10 {
        seq![digit_char(n)]
    } else {
        decimal_spec(n / 10) + seq![digit_char(n % 10)]
    }
}

/// Whether `p` occurs in `s` at `i`.
pub fn occurs_at_exec(s: &Vec<char>, i: usize, p: &Vec<char>) -> (r: bool)
    ensures
        r == occurs_at(s@, i as int, p@),
{
    if i > s.len() || p.len() > s.len() - i {
        return false;
    }
    let mut j: usize = 0;
    while j < p.len()
        invariant
            i + p@.len() <= s@.len(),
            s@.len() <= usize::MAX,
            j <= p@.len(),
            forall|t: int| 0 <= t < j ==> s@[i + t] == p@[t],
        decreases p@.len() - j,
    {
        if s[i + j] != p[j] {
            assert(s@.subrange(i as int, i + p@.len())[j as int] != p@[j as int]);
            return false;
        }
        j = j + 1;
    }
    assert(s@.subrange(i as int, i + p@.len()) =~= p@);
    true
}

/// Whether `s` begins with `p`.
pub fn starts_with(s: &Vec<char>, p: &Vec<char>) -> (r: bool)
    ensures
        r == occurs_at(s@, 0, p@),
{
    occurs_at_exec(s, 0, p)
}

/// Whether `s` ends with `p`.
pub fn ends_with(s: &Vec<char>, p: &Vec<char>) -> (r: bool)
    ensures
        r == (p@.len() <= s@.len() && occurs_at(s@, s@.len() - p@.len(), p@)),
{
    if p.len() > s.len() {
        false
    } else {
        occurs_at_exec(s, s.len() - p.len(), p)
    }
}

/// Whether `p` occurs in `s`.
pub fn contains_exec(s: &Vec<char>, p: &Vec<char>) -> (r: bool)
    ensures
        r == contains(s@, p@),
{
    if p.len() > s.len() {
        assert forall|i: int| !occurs_at(s@, i, p@) by {}
        return false;
    }
    if p.len() == 0 {
        assert(occurs_at(s@, 0, p@)) by {
            assert(s@.subrange(0, 0) =~= p@);
        }
        return true;
    }
    let mut i: usize = 0;
    while i <= s.len() - p.len()
        invariant
            0 < p@.len() <= s@.len(),
            i <= s@.len() - p@.len() + 1,
            forall|k: int| 0 <= k < i ==> !occurs_at(s@, k, p@),
        decreases s@.len() - p@.len() + 1 - i,
    {
        if occurs_at_exec(s, i, p) {
            return true;
        }
        i = i + 1;
    }
    assert forall|k: int| !occurs_at(s@, k, p@) by {
        if 0 <= k < i {
        }
    }
    false
}

proof fn lemma_suffix_subrange(s: Seq<char>, i: int, k: int)
    requires
        0 <= i,
        0 <= k,
        i + k <= s.len(),
    ensures
        s.subrange(i, s.len() as int).subrange(k, s.len() - i) == s.subrange(i + k, s.len() as int),
        occurs_at(s.subrange(i, s.len() as int), 0, s.subrange(i, i + k)),
{
    assert(s.subrange(i, s.len() as int).subrange(k, s.len() - i) =~= s.subrange(i + k, s.len() as int));
    assert(s.subrange(i, s.len() as int).subrange(0, k) =~= s.subrange(i, i + k));
}

pub proof fn lemma_occurs_shift(s: Seq<char>, i: int, p: Seq<char>)
    requires
        0 <= i <= s.len(),
    ensures
        occurs_at(s, i, p) == occurs_at(s.subrange(i, s.len() as int), 0, p),
{
    if i + p.len() <= s.len() {
        assert(s.subrange(i, s.len() as int).subrange(0, p.len() as int) =~= s.subrange(i, i + p.len()));
    }
}

/// Replaces every non-overlapping occurrence of `from` in `s` by `to`.
pub fn replace_chars(s: &Vec<char>, from: &Vec<char>, to: &Vec<char>) -> (r: Vec<char>)
    ensures
        r@ == replace_spec(s@, from@, to@),
{
    if from.len() == 0 {
        return s.clone();
    }
    let mut out: Vec<char> = Vec::new();
    let mut i: usize = 0;
    proof {
        assert(s@.subrange(0, s@.len() as int) =~= s@);
    }
    while i < s.len()
        invariant
            from@.len() > 0,
            i <= s@.len(),
            out@ + replace_spec(s@.subrange(i as int, s@.len() as int), from@, to@)
                == replace_spec(s@, from@, to@),
        decreases s@.len() - i,
    {
        let ghost rest = s@.subrange(i as int, s@.len() as int);
        proof {
            lemma_occurs_shift(s@, i as int, from@);
        }
        if occurs_at_exec(s, i, from) {
            proof {
                lemma_suffix_subrange(s@, i as int, from@.len() as int);
            }
            let mut j: usize = 0;
            let ghost before = out@;
            while j < to.len()
                invariant
                    j <= to@.len(),
                    out@ == before + to@.subrange(0, j as int),
                decreases to@.len() - j,
            {
                out.push(to[j]);
                proof {
                    assert(to@.subrange(0, j + 1) =~= to@.subrange(0, j as int).push(to@[j as int]));
                }
                j = j + 1;
            }
            proof {
                assert(to@.subrange(0, to@.len() as int) =~= to@);
                assert(before + (to@ + replace_spec(rest.subrange(from@.len() as int, rest.len() as int), from@, to@))
                    =~= before + to@ + replace_spec(rest.subrange(from@.len() as int, rest.len() as int), from@, to@));
            }
            i = i + from.len();
        } else {
            out.push(s[i]);
            proof {
                lemma_suffix_subrange(s@, i as int, 1);
                assert(rest[0] == s@[i as int]);
                let before = out@.drop_last();
                assert(before + (seq![s@[i as int]] + replace_spec(rest.subrange(1, rest.len() as int), from@, to@))
                    =~= out@ + replace_spec(rest.subrange(1, rest.len() as int), from@, to@));
            }
            i = i + 1;
        }
    }
    proof {
        assert(s@.subrange(i as int, s@.len() as int) =~= Seq::<char>::empty());
        assert(out@ + Seq::<char>::empty() =~= out@);
    }
    out
}

/// `count_spec`, capped at the largest `usize`.
pub open spec fn count_clamped(s: Seq<char>, p: Seq<char>) -> nat {
    if count_spec(s, p) <= usize::MAX {
        count_spec(s, p)
    } else {
        usize::MAX as nat
    }
}

/// Number of non-overlapping occurrences of `p` in `s`.
pub fn count_chars(s: &Vec<char>, p: &Vec<char>) -> (r: usize)
    ensures
        r == count_clamped(s@, p@),
{
    if p.len() == 0 {
        if s.len() < usize::MAX {
            return s.len() + 1;
        } else {
            return usize::MAX;
        }
    }
    let mut n: usize = 0;
    let mut i: usize = 0;
    proof {
        assert(s@.subrange(0, s@.len() as int) =~= s@);
    }
    while i < s.len()
        invariant
            p@.len() > 0,
            i <= s@.len(),
            n <= i,
            n + count_spec(s@.subrange(i as int, s@.len() as int), p@) == count_spec(s@, p@),
        decreases s@.len() - i,
    {
        proof {
            lemma_occurs_shift(s@, i as int, p@);
        }
        if occurs_at_exec(s, i, p) {
            proof {
                lemma_suffix_subrange(s@, i as int, p@.len() as int);
            }
            n = n + 1;
            i = i + p.len();
        } else {
            proof {
                lemma_suffix_subrange(s@, i as int, 1);
            }
            i = i + 1;
        }
    }
    n
}

/// Appends all of `tail` to `out`.
pub fn append_chars(out: &mut Vec<char>, tail: &Vec<char>)
    ensures
        final(out)@ == old(out)@ + tail@,
{
    let mut j: usize = 0;
    while j < tail.len()
        invariant
            j <= tail@.len(),
            out@ == old(out)@ + tail@.subrange(0, j as int),
        decreases tail@.len() - j,
    {
        out.push(tail[j]);
        proof {
            assert(tail@.subrange(0, j + 1) =~= tail@.subrange(0, j as int).push(tail@[j as int]));
        }
        j = j + 1;
    }
    proof {
        assert(tail@.subrange(0, tail@.len() as int) =~= tail@);
    }
}

/// `i` is the first position where `p` occurs in `s`.
pub open spec fn first_at(s: Seq<char>, p: Seq<char>, i: int) -> bool {
    occurs_at(s, i, p) && forall|j: int| 0 <= j < i ==> !occurs_at(s, j, p)
}

/// The first position where `p` occurs in `s` (meaningful when it occurs).
pub open spec fn first_index(s: Seq<char>, p: Seq<char>) -> int {
    choose|i: int| first_at(s, p, i)
}

pub proof fn lemma_first_index(s: Seq<char>, p: Seq<char>, i: int)
    requires
        first_at(s, p, i),
    ensures
        first_index(s, p) == i,
{
    let k = first_index(s, p);
    assert(first_at(s, p, k));
    if k < i {
        assert(!occurs_at(s, k, p));
    }
    if i < k {
        assert(!occurs_at(s, i, p));
    }
}

/// The first position where `p` occurs in `s`, if any.
pub fn find_first(s: &Vec<char>, p: &Vec<char>) -> (r: Option<usize>)
    ensures
        r matches Some(i) ==> first_at(s@, p@, i as int) && first_index(s@, p@) == i,
        r is None ==> !contains(s@, p@),
{
    if p.len() > s.len() {
        assert forall|i: int| !occurs_at(s@, i, p@) by {}
        return None;
    }
    if p.len() == 0 {
        proof {
            assert(s@.subrange(0, 0) =~= p@);
            lemma_first_index(s@, p@, 0);
        }
        return Some(0);
    }
    let mut i: usize = 0;
    while i <= s.len() - p.len()
        invariant
            0 < p@.len() <= s@.len(),
            i <= s@.len() - p@.len() + 1,
            forall|k: int| 0 <= k < i ==> !occurs_at(s@, k, p@),
        decreases s@.len() - p@.len() + 1 - i,
    {
        if occurs_at_exec(s, i, p) {
            proof {
                lemma_first_index(s@, p@, i as int);
            }
            return Some(i);
        }
        i = i + 1;
    }
    assert forall|k: int| !occurs_at(s@, k, p@) by {
        if 0 <= k < i {
        }
    }
    None
}

/// The elements of `s` from `lo` up to `hi`.
pub fn slice_chars(s: &Vec<char>, lo: usize, hi: usize) -> (r: Vec<char>)
    requires
        lo <= hi <= s@.len(),
    ensures
        r@ == s@.subrange(lo as int, hi as int),
{
    let mut r: Vec<char> = Vec::new();
    let mut i: usize = lo;
    while i < hi
        invariant
            lo <= i <= hi,
            hi <= s@.len(),
            r@ == s@.subrange(lo as int, i as int),
        decreases hi - i,
    {
        r.push(s[i]);
        proof {
            assert(s@.subrange(lo as int, i + 1) =~= s@.subrange(lo as int, i as int).push(s@[i as int]));
        }
        i = i + 1;
    }
    r
}

/// `a` followed by `b`.
pub fn cat(a: &Vec<char>, b: &Vec<char>) -> (r: Vec<char>)
    ensures
        r@ == a@ + b@,
{
    let mut r = a.clone();
    proof {
        assert(r@ == a@);
    }
    append_chars(&mut r, b);
    r
}

/// Decimal notation of `n`.
pub fn decimal(n: u64) -> (r: Vec<char>)
    ensures
        r@ == decimal_spec(n as nat),
    decreases n,
{
    let d: u64 = n % 10;
    let c: char = if d == 0 { '0' } else if d == 1 { '1' } else if d == 2 { '2' } else if d == 3 {
        '3'
    } else if d == 4 { '4' } else if d == 5 { '5' } else if d == 6 { '6' } else if d == 7 {
        '7'
    } else if d == 8 { '8' } else { '9' };
    if n < 10 {
        vec![c]
    } else {
        let mut r = decimal(n / 10);
        r.push(c);
        r
    }
}

} // verus!
