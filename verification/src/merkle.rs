//! Merkle root of a list of hashes: pairs are hashed level by level (an odd
//! last hash is paired with itself) until one remains; an empty list has a
//! fixed root.

use vstd::prelude::*;
use vstd::utf8::encode_utf8;
use crate::binary::append_bytes;
use crate::hash::{sha256_hex, spec_sha256_hex};

verus! {

/// The hash of a pair of hashes.
pub open spec fn pair_hash(l: Seq<char>, r: Seq<char>) -> Seq<char> {
    spec_sha256_hex(encode_utf8(l) + encode_utf8(r))
}

/// The level above: each pair hashed, an odd last one with itself.
pub open spec fn next_level(s: Seq<Seq<char>>) -> Seq<Seq<char>> {
    Seq::new(((s.len() + 1) / 2) as nat, |i: int| pair_hash(s[2 * i], if 2 * i + 1 < s.len() { s[2 * i + 1] } else { s[2 * i] }))
}

/// Levels up to the one with a single hash.
pub open spec fn reduce_levels(s: Seq<Seq<char>>) -> Seq<Seq<char>>
    decreases s.len(),
{
    if s.len() <= 1 {
        s
    } else {
        reduce_levels(next_level(s))
    }
}

/// The root of an empty list.
pub open spec fn empty_root() -> Seq<char> {
    spec_sha256_hex(encode_utf8("empty-merkle-root"@))
}

/// The Merkle root of a list of hashes.
pub open spec fn merkle_root_spec(leaves: Seq<Seq<char>>) -> Seq<char> {
    if leaves.len() == 0 {
        empty_root()
    } else {
        reduce_levels(leaves)[0]
    }
}

/// Reducing a nonempty level keeps it nonempty.
proof fn lemma_reduce_nonempty(s: Seq<Seq<char>>)
    requires
        s.len() >= 1,
    ensures
        reduce_levels(s).len() == 1,
    decreases s.len(),
{
    if s.len() > 1 {
        lemma_reduce_nonempty(next_level(s));
    }
}

/// Computes the level above.
fn hash_level(level: &Vec<String>) -> (r: Vec<String>)
    ensures
        r@.map_values(|h: String| h@) == next_level(level@.map_values(|h: String| h@)),
{
    let ghost lv = level@.map_values(|h: String| h@);
    let mut out: Vec<String> = Vec::new();
    let n = level.len();
    let pairs = n / 2 + n % 2;
    let mut k: usize = 0;
    while k < pairs
        invariant
            n == level@.len(),
            pairs == (n + 1) / 2,
            lv == level@.map_values(|h: String| h@),
            k <= pairs,
            out@.len() == k,
            forall|j: int| 0 <= j < out@.len() ==> #[trigger] out@[j]@ == next_level(lv)[j],
        decreases pairs - k,
    {
        let i = 2 * k;
        let left = &level[i];
        let right = if i + 1 < n { &level[i + 1] } else { &level[i] };
        let mut bytes: Vec<u8> = Vec::new();
        append_bytes(&mut bytes, left.as_str().as_bytes());
        append_bytes(&mut bytes, right.as_str().as_bytes());
        let h = sha256_hex(bytes.as_slice());
        proof {
            assert(lv[i as int] == left@);
            assert(bytes@ =~= encode_utf8(lv[i as int]) + encode_utf8(if i + 1 < n { lv[i + 1] } else { lv[i as int] }));
        }
        let ghost before = out@;
        out.push(h);
        proof {
            assert forall|j: int| 0 <= j < out@.len() implies #[trigger] out@[j]@ == next_level(lv)[j] by {
                if j < before.len() {
                    assert(out@[j] == before[j]);
                }
            }
        }
        k = k + 1;
    }
    proof {
        assert(out@.map_values(|h: String| h@) =~= next_level(lv));
    }
    out
}

/// The Merkle root of a list of hashes.
pub fn calculate_merkle_root(leaves: &[String]) -> (r: String)
    ensures
        r@ == merkle_root_spec(leaves@.map_values(|h: String| h@)),
{
    if leaves.len() == 0 {
        return sha256_hex("empty-merkle-root".as_bytes());
    }
    let mut level: Vec<String> = Vec::new();
    let mut i: usize = 0;
    while i < leaves.len()
        invariant
            i <= leaves@.len(),
            level@.map_values(|h: String| h@) == leaves@.map_values(|h: String| h@).subrange(0, i as int),
        decreases leaves.len() - i,
    {
        let ghost before = level@;
        let c = leaves[i].clone();
        proof { assert(c@ == leaves@[i as int]@); }
        level.push(c);
        proof {
            assert(level@.map_values(|h: String| h@) =~= before.map_values(|h: String| h@).push(leaves@[i as int]@));
            assert(leaves@.map_values(|h: String| h@).subrange(0, i + 1) =~= leaves@.map_values(|h: String| h@).subrange(0, i as int).push(leaves@[i as int]@));
        }
        i = i + 1;
    }
    proof {
        assert(leaves@.map_values(|h: String| h@).subrange(0, i as int) =~= leaves@.map_values(|h: String| h@));
    }
    let ghost all = leaves@.map_values(|h: String| h@);
    while level.len() > 1
        invariant
            level@.len() >= 1,
            all.len() >= 1,
            reduce_levels(level@.map_values(|h: String| h@)) == reduce_levels(all),
        decreases level@.len(),
    {
        let ghost lv = level@.map_values(|h: String| h@);
        level = hash_level(&level);
        proof {
            assert(level@.map_values(|h: String| h@).len() == level@.len());
            assert(reduce_levels(lv) == reduce_levels(next_level(lv)));
        }
    }
    proof {
        lemma_reduce_nonempty(all);
        assert(reduce_levels(level@.map_values(|h: String| h@)) == level@.map_values(|h: String| h@));
        assert(level@.map_values(|h: String| h@)[0] == level@[0]@);
    }
    level.swap_remove(0)
}

} // verus!
