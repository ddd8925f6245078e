//! Fixed-width little-endian binary layout shared by the wire formats:
//! integers as 4 or 8 little-endian bytes, byte strings and text as a 64-bit
//! length followed by the bytes (text as UTF-8), lists as a 64-bit count
//! followed by the items.
//!
//! Writers append to a buffer; readers take a position and return the value
//! and the position after it. Each reader is proved to give back what the
//! matching writer wrote, whatever surrounds it.

use vstd::prelude::*;
use vstd::bytes::{
    spec_u32_to_le_bytes, spec_u32_from_le_bytes, spec_u64_to_le_bytes, spec_u64_from_le_bytes,
    lemma_auto_spec_u32_to_from_le_bytes, lemma_auto_spec_u64_to_from_le_bytes, u32_to_le_bytes,
    u32_from_le_bytes, u64_to_le_bytes, u64_from_le_bytes,
};
use vstd::utf8::{encode_utf8, decode_utf8, valid_utf8, encode_utf8_valid_utf8, encode_utf8_decode_utf8};

verus! {

/// Four little-endian bytes.
pub open spec fn enc_u32(x: u32) -> Seq<u8> {
    spec_u32_to_le_bytes(x)
}

/// Eight little-endian bytes.
pub open spec fn enc_u64(x: u64) -> Seq<u8> {
    spec_u64_to_le_bytes(x)
}

/// A byte string: its length, then its bytes.
pub open spec fn enc_bytes(b: Seq<u8>) -> Seq<u8> {
    enc_u64(b.len() as u64) + b
}

/// Text: its UTF-8 bytes as a byte string.
pub open spec fn enc_str(s: Seq<char>) -> Seq<u8> {
    enc_bytes(encode_utf8(s))
}

/// Byte strings one after another.
pub open spec fn enc_items(l: Seq<Seq<u8>>) -> Seq<u8>
    decreases l.len(),
{
    if l.len() == 0 {
        Seq::empty()
    } else {
        enc_bytes(l[0]) + enc_items(l.drop_first())
    }
}

/// A list of byte strings: the count, then the items.
pub open spec fn enc_list(l: Seq<Seq<u8>>) -> Seq<u8> {
    enc_u64(l.len() as u64) + enc_items(l)
}

/// Reads four little-endian bytes at `p`.
pub open spec fn dec_u32(d: Seq<u8>, p: int) -> Option<(u32, int)> {
    if 0 <= p && p + 4 <= d.len() {
        Some((spec_u32_from_le_bytes(d.subrange(p, p + 4)), p + 4))
    } else {
        None
    }
}

/// Reads eight little-endian bytes at `p`.
pub open spec fn dec_u64(d: Seq<u8>, p: int) -> Option<(u64, int)> {
    if 0 <= p && p + 8 <= d.len() {
        Some((spec_u64_from_le_bytes(d.subrange(p, p + 8)), p + 8))
    } else {
        None
    }
}

/// Reads a byte string at `p`.
pub open spec fn dec_bytes(d: Seq<u8>, p: int) -> Option<(Seq<u8>, int)> {
    match dec_u64(d, p) {
        None => None,
        Some((n, q)) => if q + n <= d.len() { Some((d.subrange(q, q + n), q + n)) } else { None },
    }
}

/// Reads text at `p`; its bytes must be valid UTF-8.
pub open spec fn dec_str(d: Seq<u8>, p: int) -> Option<(Seq<char>, int)> {
    match dec_bytes(d, p) {
        None => None,
        Some((b, q)) => if valid_utf8(b) { Some((decode_utf8(b), q)) } else { None },
    }
}

/// Reads `n` byte strings at `p`.
pub open spec fn dec_items(d: Seq<u8>, p: int, n: nat) -> Option<(Seq<Seq<u8>>, int)>
    decreases n,
{
    if n == 0 {
        Some((Seq::empty(), p))
    } else {
        match dec_bytes(d, p) {
            None => None,
            Some((b, q)) => match dec_items(d, q, (n - 1) as nat) {
                None => None,
                Some((rest, r)) => Some((seq![b] + rest, r)),
            },
        }
    }
}

/// Reads a list of byte strings at `p`.
pub open spec fn dec_list(d: Seq<u8>, p: int) -> Option<(Seq<Seq<u8>>, int)> {
    match dec_u64(d, p) {
        None => None,
        Some((n, q)) => dec_items(d, q, n as nat),
    }
}

/// `w` stands in `d` at position `p`.
pub open spec fn at(d: Seq<u8>, p: int, w: Seq<u8>) -> bool {
    0 <= p && p + w.len() <= d.len() && d.subrange(p, p + w.len()) == w
}

/// The encodings have the lengths their layout gives.
pub proof fn lemma_enc_lens()
    ensures
        forall|x: u32| #[trigger] enc_u32(x).len() == 4,
        forall|x: u64| #[trigger] enc_u64(x).len() == 8,
{
    lemma_auto_spec_u32_to_from_le_bytes();
    lemma_auto_spec_u64_to_from_le_bytes();
}

/// A written 32-bit number reads back.
pub proof fn lemma_dec_u32(d: Seq<u8>, p: int, x: u32)
    requires
        at(d, p, enc_u32(x)),
    ensures
        dec_u32(d, p) == Some((x, p + 4)),
{
    lemma_auto_spec_u32_to_from_le_bytes();
}

/// A written 64-bit number reads back.
pub proof fn lemma_dec_u64(d: Seq<u8>, p: int, x: u64)
    requires
        at(d, p, enc_u64(x)),
    ensures
        dec_u64(d, p) == Some((x, p + 8)),
{
    lemma_auto_spec_u64_to_from_le_bytes();
}

/// A written byte string reads back.
pub proof fn lemma_dec_bytes(d: Seq<u8>, p: int, b: Seq<u8>)
    requires
        b.len() <= u64::MAX,
        at(d, p, enc_bytes(b)),
    ensures
        enc_bytes(b).len() == 8 + b.len(),
        dec_bytes(d, p) == Some((b, p + 8 + b.len())),
{
    lemma_enc_lens();
    let e = enc_bytes(b);
    assert(d.subrange(p, p + 8) =~= e.subrange(0, 8));
    assert(e.subrange(0, 8) =~= enc_u64(b.len() as u64));
    lemma_dec_u64(d, p, b.len() as u64);
    assert(d.subrange(p + 8, p + 8 + b.len()) =~= e.subrange(8, 8 + b.len() as int));
    assert(e.subrange(8, 8 + b.len() as int) =~= b);
}

/// Written text reads back.
pub proof fn lemma_dec_str(d: Seq<u8>, p: int, s: Seq<char>)
    requires
        encode_utf8(s).len() <= u64::MAX,
        at(d, p, enc_str(s)),
    ensures
        enc_str(s).len() == 8 + encode_utf8(s).len(),
        dec_str(d, p) == Some((s, p + enc_str(s).len())),
{
    lemma_dec_bytes(d, p, encode_utf8(s));
    encode_utf8_valid_utf8(s);
    encode_utf8_decode_utf8(s);
}

/// Written byte strings read back.
pub proof fn lemma_dec_items(d: Seq<u8>, p: int, l: Seq<Seq<u8>>)
    requires
        forall|i: int| 0 <= i < l.len() ==> (#[trigger] l[i]).len() <= u64::MAX,
        at(d, p, enc_items(l)),
    ensures
        dec_items(d, p, l.len()) == Some((l, p + enc_items(l).len())),
    decreases l.len(),
{
    if l.len() > 0 {
        let e = enc_items(l);
        let first = enc_bytes(l[0]);
        let rest = enc_items(l.drop_first());
        assert(e == first + rest);
        lemma_enc_lens();
        assert(d.subrange(p, p + first.len()) =~= e.subrange(0, first.len() as int));
        assert(e.subrange(0, first.len() as int) =~= first);
        lemma_dec_bytes(d, p, l[0]);
        let q = p + first.len();
        assert(d.subrange(q, q + rest.len()) =~= e.subrange(first.len() as int, e.len() as int));
        assert(e.subrange(first.len() as int, e.len() as int) =~= rest);
        lemma_dec_items(d, q, l.drop_first());
        assert(seq![l[0]] + l.drop_first() =~= l);
    }
}

/// A written list reads back.
pub proof fn lemma_dec_list(d: Seq<u8>, p: int, l: Seq<Seq<u8>>)
    requires
        l.len() <= u64::MAX,
        forall|i: int| 0 <= i < l.len() ==> (#[trigger] l[i]).len() <= u64::MAX,
        at(d, p, enc_list(l)),
    ensures
        dec_list(d, p) == Some((l, p + enc_list(l).len())),
{
    lemma_enc_lens();
    let e = enc_list(l);
    assert(d.subrange(p, p + 8) =~= e.subrange(0, 8));
    assert(e.subrange(0, 8) =~= enc_u64(l.len() as u64));
    lemma_dec_u64(d, p, l.len() as u64);
    let rest = enc_items(l);
    assert(d.subrange(p + 8, p + 8 + rest.len()) =~= e.subrange(8, e.len() as int));
    assert(e.subrange(8, e.len() as int) =~= rest);
    lemma_dec_items(d, p + 8, l);
}

/// Appends `src` to `out`.
pub fn append_bytes(out: &mut Vec<u8>, src: &[u8])
    ensures
        final(out)@ == old(out)@ + src@,
{
    let mut i: usize = 0;
    while i < src.len()
        invariant
            i <= src.len(),
            out@ == old(out)@ + src@.subrange(0, i as int),
        decreases src.len() - i,
    {
        out.push(src[i]);
        i = i + 1;
        proof { assert(out@ =~= old(out)@ + src@.subrange(0, i as int)); }
    }
    proof { assert(src@.subrange(0, src.len() as int) =~= src@); }
}

/// Appends a 32-bit number.
pub fn put_u32(out: &mut Vec<u8>, x: u32)
    ensures
        final(out)@ == old(out)@ + enc_u32(x),
{
    let b = u32_to_le_bytes(x);
    append_bytes(out, b.as_slice());
}

/// Appends a 64-bit number.
pub fn put_u64(out: &mut Vec<u8>, x: u64)
    ensures
        final(out)@ == old(out)@ + enc_u64(x),
{
    let b = u64_to_le_bytes(x);
    append_bytes(out, b.as_slice());
}

/// Appends a byte string.
pub fn put_bytes(out: &mut Vec<u8>, b: &[u8])
    ensures
        final(out)@ == old(out)@ + enc_bytes(b@),
        b@.len() <= u64::MAX,
{
    put_u64(out, b.len() as u64);
    append_bytes(out, b);
    proof { assert(final(out)@ =~= old(out)@ + enc_bytes(b@)); }
}

/// Appends text.
pub fn put_str(out: &mut Vec<u8>, s: &str)
    ensures
        final(out)@ == old(out)@ + enc_str(s@),
        encode_utf8(s@).len() <= u64::MAX,
{
    let b = s.as_bytes();
    put_bytes(out, b);
}

/// Appends a list of byte strings.
pub fn put_list(out: &mut Vec<u8>, l: &Vec<Vec<u8>>)
    ensures
        final(out)@ == old(out)@ + enc_list(l@.map_values(|v: Vec<u8>| v@)),
        l@.len() <= u64::MAX,
        forall|i: int| 0 <= i < l@.len() ==> (#[trigger] l@[i]@).len() <= u64::MAX,
{
    let ghost lv = l@.map_values(|v: Vec<u8>| v@);
    put_u64(out, l.len() as u64);
    let ghost start = out@;
    proof { assert(lv.subrange(0, lv.len() as int) =~= lv); }
    let mut i: usize = 0;
    while i < l.len()
        invariant
            i <= l.len(),
            lv == l@.map_values(|v: Vec<u8>| v@),
            start == old(out)@ + enc_u64(l.len() as u64),
            out@ + enc_items(lv.subrange(i as int, lv.len() as int)) == start + enc_items(lv),
            forall|j: int| 0 <= j < i ==> (#[trigger] l@[j]@).len() <= u64::MAX,
        decreases l.len() - i,
    {
        let ghost before = out@;
        put_bytes(out, l[i].as_slice());
        proof {
            let rest = lv.subrange(i as int, lv.len() as int);
            assert(rest[0] == l@[i as int]@);
            assert(rest.drop_first() =~= lv.subrange(i + 1, lv.len() as int));
            assert(out@ + enc_items(lv.subrange(i + 1, lv.len() as int)) =~= before + enc_items(rest));
        }
        i = i + 1;
    }
    proof {
        assert(lv.subrange(i as int, lv.len() as int) =~= Seq::<Seq<u8>>::empty());
        assert(out@ + Seq::<u8>::empty() =~= out@);
        assert(final(out)@ =~= old(out)@ + enc_list(lv));
    }
}

/// The bytes `d[a..b]`.
pub fn copy_range(d: &[u8], a: usize, b: usize) -> (r: Vec<u8>)
    requires
        a <= b <= d@.len(),
    ensures
        r@ == d@.subrange(a as int, b as int),
{
    let mut r: Vec<u8> = Vec::new();
    let mut i = a;
    while i < b
        invariant
            a <= i <= b,
            b <= d@.len(),
            r@ == d@.subrange(a as int, i as int),
        decreases b - i,
    {
        r.push(d[i]);
        i = i + 1;
        proof { assert(r@ =~= d@.subrange(a as int, i as int)); }
    }
    r
}

/// Reads a 32-bit number at `p`.
pub fn get_u32(d: &[u8], p: usize) -> (r: Option<(u32, usize)>)
    ensures
        match r {
            Some((x, q)) => dec_u32(d@, p as int) == Some((x, q as int)),
            None => dec_u32(d@, p as int) is None,
        },
{
    if p > d.len() || d.len() - p < 4 {
        return None;
    }
    let b = copy_range(d, p, p + 4);
    let x = u32_from_le_bytes(b.as_slice());
    Some((x, p + 4))
}

/// Reads a 64-bit number at `p`.
pub fn get_u64(d: &[u8], p: usize) -> (r: Option<(u64, usize)>)
    ensures
        match r {
            Some((x, q)) => dec_u64(d@, p as int) == Some((x, q as int)),
            None => dec_u64(d@, p as int) is None,
        },
{
    if p > d.len() || d.len() - p < 8 {
        return None;
    }
    let b = copy_range(d, p, p + 8);
    let x = u64_from_le_bytes(b.as_slice());
    Some((x, p + 8))
}

/// Reads a byte string at `p`.
pub fn get_bytes(d: &[u8], p: usize) -> (r: Option<(Vec<u8>, usize)>)
    ensures
        match r {
            Some((b, q)) => dec_bytes(d@, p as int) == Some((b@, q as int)),
            None => dec_bytes(d@, p as int) is None,
        },
{
    let (n, q) = match get_u64(d, p) {
        Some(x) => x,
        None => { return None; },
    };
    if q > d.len() || ((d.len() - q) as u64) < n {
        return None;
    }
    let end = q + n as usize;
    let b = copy_range(d, q, end);
    Some((b, end))
}

/// Converts bytes to text when they are valid UTF-8.
#[verifier::external_body]
fn utf8_string(v: Vec<u8>) -> (r: Option<String>)
    ensures
        match r {
            Some(s) => valid_utf8(v@) && s@ == decode_utf8(v@),
            None => !valid_utf8(v@),
        },
{
    String::from_utf8(v).ok()
}

/// Reads text at `p`.
pub fn get_str(d: &[u8], p: usize) -> (r: Option<(String, usize)>)
    ensures
        match r {
            Some((s, q)) => dec_str(d@, p as int) == Some((s@, q as int)),
            None => dec_str(d@, p as int) is None,
        },
{
    let (b, q) = match get_bytes(d, p) {
        Some(x) => x,
        None => { return None; },
    };
    match utf8_string(b) {
        Some(s) => Some((s, q)),
        None => None,
    }
}

/// Reads a list of byte strings at `p`.
pub fn get_list(d: &[u8], p: usize) -> (r: Option<(Vec<Vec<u8>>, usize)>)
    ensures
        match r {
            Some((l, q)) => dec_list(d@, p as int) == Some((l@.map_values(|v: Vec<u8>| v@), q as int)),
            None => dec_list(d@, p as int) is None,
        },
{
    let (n, q0) = match get_u64(d, p) {
        Some(x) => x,
        None => { return None; },
    };
    let mut items: Vec<Vec<u8>> = Vec::new();
    let mut q = q0;
    let mut k: u64 = 0;
    while k < n
        invariant
            k <= n,
            dec_u64(d@, p as int) == Some((n, q0 as int)),
            dec_items(d@, q0 as int, n as nat) == match dec_items(d@, q as int, (n - k) as nat) {
                None => None,
                Some((rest, r)) => Some((items@.map_values(|v: Vec<u8>| v@) + rest, r)),
            },
        decreases n - k,
    {
        let ghost iv = items@.map_values(|v: Vec<u8>| v@);
        match get_bytes(d, q) {
            Some((b, q2)) => {
                let ghost bv = b@;
                items.push(b);
                proof {
                    assert(items@.map_values(|v: Vec<u8>| v@) =~= iv.push(bv));
                    match dec_items(d@, q2 as int, (n - k - 1) as nat) {
                        None => {},
                        Some((rest, r)) => {
                            assert(iv + (seq![bv] + rest) =~= iv.push(bv) + rest);
                        },
                    }
                }
                q = q2;
            },
            None => { return None; },
        }
        k = k + 1;
    }
    proof {
        assert(items@.map_values(|v: Vec<u8>| v@) + Seq::<Seq<u8>>::empty() =~= items@.map_values(|v: Vec<u8>| v@));
    }
    Some((items, q))
}

} // verus!
