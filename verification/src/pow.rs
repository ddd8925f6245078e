//! Proof-of-work target: a hash meets difficulty `d` when its text starts with `d` zeros.

use vstd::prelude::*;

verus! {

/// Whether `hash` starts with `difficulty` zero characters.
pub open spec fn meets_spec(hash: Seq<char>, difficulty: u32) -> bool {
    difficulty <= hash.len() && forall|i: int| 0 <= i < difficulty ==> hash[i] == '0'
}

/// Whether `hash` starts with `difficulty` zero characters.
pub fn meets_difficulty(hash: &str, difficulty: u32) -> (r: bool)
    ensures
        r == meets_spec(hash@, difficulty),
{
    let n = hash.unicode_len();
    if (difficulty as usize) > n || (difficulty as u64) > (n as u64) {
        return false;
    }
    let d = difficulty as usize;
    let mut i: usize = 0;
    while i < d
        invariant
            i <= d,
            d == difficulty,
            d <= n,
            n == hash@.len(),
            forall|j: int| 0 <= j < i ==> hash@[j] == '0',
        decreases d - i,
    {
        if hash.get_char(i) != '0' {
            return false;
        }
        i = i + 1;
    }
    true
}

} // verus!
