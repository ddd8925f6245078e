//! SHA-256 digests and their lowercase hexadecimal rendering.

use vstd::prelude::*;
use sha2::{Digest, Sha256};

verus! {

/// The SHA-256 digest of a byte string (FIPS 180-4), as computed by `sha2`.
pub uninterp spec fn sha256_digest(data: Seq<u8>) -> Seq<u8>;

/// Lowercase hexadecimal digit for a value below 16.
pub open spec fn hex_digit(d: int) -> char {
    if d < 10 {
        crate::text::digit_char(d)
    } else if d == 10 { 'a' }
    else if d == 11 { 'b' }
    else if d == 12 { 'c' }
    else if d == 13 { 'd' }
    else if d == 14 { 'e' }
    else { 'f' }
}

/// Lowercase hexadecimal rendering, two digits per byte, high nibble first.
pub open spec fn hex_lower(b: Seq<u8>) -> Seq<char>
    decreases b.len(),
{
    if b.len() == 0 {
        Seq::empty()
    } else {
        hex_lower(b.drop_last()) + seq![hex_digit((b.last() / 16) as int), hex_digit((b.last() % 16) as int)]
    }
}

/// The concatenation of a sequence of byte strings.
pub open spec fn concat_all(parts: Seq<Seq<u8>>) -> Seq<u8>
    decreases parts.len(),
{
    if parts.len() == 0 {
        Seq::empty()
    } else {
        concat_all(parts.drop_last()) + parts.last()
    }
}

/// What `sha256_hex` returns.
pub open spec fn spec_sha256_hex(data: Seq<u8>) -> Seq<char> {
    hex_lower(sha256_digest(data))
}

/// Calls `sha2::Sha256::digest`. The contract claims that the result is the
/// SHA-256 digest of the input, a fixed function of the bytes, 32 bytes long.
#[verifier::external_body]
pub(crate) fn sha256(data: &[u8]) -> (r: Vec<u8>)
    ensures
        r@ == sha256_digest(data@),
        r@.len() == 32,
{
    Sha256::digest(data).to_vec()
}

/// Calls `hex::encode`. The contract claims the lowercase two-digits-per-byte
/// rendering that the crate documents.
#[verifier::external_body]
pub(crate) fn hex_encode(data: &[u8]) -> (s: String)
    ensures
        s@ == hex_lower(data@),
{
    hex::encode(data)
}

/// Hexadecimal text has two digits per byte.
pub proof fn lemma_hex_lower_len(b: Seq<u8>)
    ensures
        hex_lower(b).len() == 2 * b.len(),
    decreases b.len(),
{
    if b.len() > 0 {
        lemma_hex_lower_len(b.drop_last());
    }
}

/// SHA-256 of `data`, rendered in lowercase hexadecimal: 64 digits.
pub fn sha256_hex(data: &[u8]) -> (s: String)
    ensures
        s@ == spec_sha256_hex(data@),
        s@.len() == 64,
{
    let digest = sha256(data);
    proof { lemma_hex_lower_len(digest@); }
    hex_encode(digest.as_slice())
}

/// Concatenates byte strings.
pub fn concat_bytes(parts: &[&[u8]]) -> (r: Vec<u8>)
    ensures
        r@ == concat_all(parts@.map_values(|p: &[u8]| p@)),
{
    let ghost views = parts@.map_values(|p: &[u8]| p@);
    let mut r: Vec<u8> = Vec::new();
    let mut i: usize = 0;
    while i < parts.len()
        invariant
            i <= parts.len(),
            views == parts@.map_values(|p: &[u8]| p@),
            r@ == concat_all(views.subrange(0, i as int)),
        decreases parts.len() - i,
    {
        let part: &[u8] = parts[i];
        let ghost before = r@;
        let mut j: usize = 0;
        while j < part.len()
            invariant
                j <= part.len(),
                r@ == before + part@.subrange(0, j as int),
            decreases part.len() - j,
        {
            r.push(part[j]);
            j = j + 1;
        }
        assert(part@.subrange(0, part.len() as int) =~= part@);
        assert(views.subrange(0, i + 1).drop_last() =~= views.subrange(0, i as int));
        i = i + 1;
    }
    assert(views.subrange(0, parts.len() as int) =~= views);
    r
}

/// SHA-256 of the concatenation of the parts, in lowercase hexadecimal. Hashing
/// the parts one after the other gives the digest of their concatenation.
pub fn sha256_hex_parts(parts: &[&[u8]]) -> (s: String)
    ensures
        s@ == spec_sha256_hex(concat_all(parts@.map_values(|p: &[u8]| p@))),
{
    let joined = concat_bytes(parts);
    sha256_hex(joined.as_slice())
}

} // verus!
