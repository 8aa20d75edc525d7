//! A small seeded generator of the random values that requests carry.
use vstd::prelude::*;
use crate::bridge::string_of;

verus! {

/// The characters a random value is drawn from. Only lower-case letters and
/// digits are used, so a value is found again in a lower-cased page.
pub open spec fn is_token_char(c: char) -> bool {
    ('a' <= c && c <= 'z') || ('0' <= c && c <= '9')
}

pub open spec fn is_token(s: Seq<char>, len: nat) -> bool {
    s.len() == len && forall|i: int| 0 <= i < s.len() ==> is_token_char(#[trigger] s[i])
}

/// One xorshift step.
pub open spec fn xorshift(x: u64) -> u64 {
    let a = x ^ (x << 13u64);
    let b = a ^ (a >> 7u64);
    b ^ (b << 17u64)
}

/// The state after `k` steps from `s`.
pub open spec fn advance(s: u64, k: nat) -> u64
    decreases k,
{
    if k == 0 {
        s
    } else {
        xorshift(advance(s, (k - 1) as nat))
    }
}

/// The character a drawn number stands for.
pub open spec fn token_char(x: u64) -> char {
    let n = x % 36;
    if n < 26 {
        ((97 + n) as u8) as char
    } else {
        ((48 + n - 26) as u8) as char
    }
}

/// The `len` characters drawn from state `s`, one step each.
pub open spec fn drawn(s: u64, len: nat) -> Seq<char>
    decreases len,
{
    if len == 0 {
        Seq::empty()
    } else {
        drawn(s, (len - 1) as nat).push(token_char(advance(s, len)))
    }
}

/// A xorshift generator; the caller seeds it.
pub struct Randomizer {
    pub state: u64,
}

impl Randomizer {
    pub fn new(seed: u64) -> (r: Self)
        ensures
            r.state == if seed == 0 { 0x9e37_79b9_7f4a_7c15u64 } else { seed },
    {
        Randomizer { state: if seed == 0 { 0x9e37_79b9_7f4a_7c15 } else { seed } }
    }

    /// Steps the generator and returns the new state.
    pub fn next_u64(&mut self) -> (r: u64)
        ensures
            r == xorshift(old(self).state),
            final(self).state == r,
    {
        let mut x: u64 = self.state;
        x = x ^ (x << 13u64);
        x = x ^ (x >> 7u64);
        x = x ^ (x << 17u64);
        self.state = x;
        x
    }

    /// A fresh value of `len` lower-case letters and digits.
    pub fn random_line(&mut self, len: usize) -> (r: String)
        ensures
            is_token(r@, len as nat),
            r@ == drawn(old(self).state, len as nat),
            final(self).state == advance(old(self).state, len as nat),
    {
        let ghost s0 = self.state;
        let mut out: Vec<char> = Vec::new();
        let mut i: usize = 0;
        while i < len
            invariant
                i <= len,
                is_token(out@, i as nat),
                out@ == drawn(s0, i as nat),
                self.state == advance(s0, i as nat),
            decreases len - i,
        {
            let x: u64 = self.next_u64();
            let n: u64 = x % 36;
            let c: char = if n < 26 {
                ((97 + n) as u8) as char
            } else {
                ((48 + n - 26) as u8) as char
            };
            out.push(c);
            proof {
                assert(c == token_char(advance(s0, (i + 1) as nat)));
            }
            i = i + 1;
        }
        string_of(&out)
    }
}

} // verus!
