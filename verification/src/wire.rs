//! Binary form of network messages: a 32-bit little-endian variant number
//! (in declaration order), then the fields in order, in the layout of
//! `binary`. Reading accepts bytes after the message.
//!
//! Reading back what was written gives the message, and whatever reads as a
//! message starts with that message's bytes.

use vstd::prelude::*;
use vstd::utf8::{encode_utf8, decode_utf8, valid_utf8, decode_utf8_encode_utf8};
use vstd::bytes::{lemma_auto_spec_u32_to_from_le_bytes, lemma_auto_spec_u64_to_from_le_bytes};
use crate::binary::{
    enc_u32, enc_u64, enc_bytes, enc_str, enc_list, enc_items, dec_u32, dec_u64, dec_bytes, dec_str,
    dec_list, dec_items, at, lemma_enc_lens, lemma_dec_u32, lemma_dec_u64, lemma_dec_bytes, lemma_dec_str,
    lemma_dec_list, put_u32, put_u64, put_bytes, put_str, put_list, get_u32, get_u64, get_bytes, get_str,
    get_list,
};
use crate::message::{Handshake, ChainStatus, NetworkMessage, HandshakeV, ChainStatusV, NetworkMessageV, lists_view};

verus! {

/// The bytes of a handshake's fields.
pub open spec fn handshake_bytes(h: HandshakeV) -> Seq<u8> {
    enc_str(h.node_id) + enc_str(h.protocol_version) + enc_str(h.listen_addr) + enc_u64(h.best_height) + enc_str(h.best_hash)
}

/// The bytes of a chain status's fields.
pub open spec fn status_bytes(c: ChainStatusV) -> Seq<u8> {
    enc_str(c.chain_id) + enc_u64(c.best_height) + enc_str(c.best_hash) + enc_u32(c.difficulty) + enc_str(c.genesis_hash)
}

/// The bytes of a message.
pub open spec fn msg_bytes(m: NetworkMessageV) -> Seq<u8> {
    match m {
        NetworkMessageV::Ping { nonce, timestamp } => enc_u32(0) + (enc_u64(nonce) + enc_u64(timestamp as u64)),
        NetworkMessageV::Pong { nonce, timestamp } => enc_u32(1) + (enc_u64(nonce) + enc_u64(timestamp as u64)),
        NetworkMessageV::Handshake(h) => enc_u32(2) + handshake_bytes(h),
        NetworkMessageV::NewTransaction { transaction } => enc_u32(3) + enc_bytes(transaction),
        NetworkMessageV::NewBlock { block } => enc_u32(4) + enc_bytes(block),
        NetworkMessageV::GetBlocks { from_height, limit } => enc_u32(5) + (enc_u64(from_height) + enc_u32(limit)),
        NetworkMessageV::Blocks { blocks } => enc_u32(6) + enc_list(blocks),
        NetworkMessageV::GetMempool => enc_u32(7),
        NetworkMessageV::Mempool { transactions } => enc_u32(8) + enc_list(transactions),
        NetworkMessageV::GetChainStatus => enc_u32(9),
        NetworkMessageV::ChainStatus(c) => enc_u32(10) + status_bytes(c),
    }
}

/// Every length in the message fits the 64-bit length fields.
pub open spec fn list_fits(l: Seq<Seq<u8>>) -> bool {
    l.len() <= u64::MAX && forall|i: int| 0 <= i < l.len() ==> (#[trigger] l[i]).len() <= u64::MAX
}

/// Every length in the message fits the 64-bit length fields.
pub open spec fn msg_fits(m: NetworkMessageV) -> bool {
    match m {
        NetworkMessageV::Handshake(h) => encode_utf8(h.node_id).len() <= u64::MAX && encode_utf8(h.protocol_version).len() <= u64::MAX
            && encode_utf8(h.listen_addr).len() <= u64::MAX && encode_utf8(h.best_hash).len() <= u64::MAX,
        NetworkMessageV::NewTransaction { transaction } => transaction.len() <= u64::MAX,
        NetworkMessageV::NewBlock { block } => block.len() <= u64::MAX,
        NetworkMessageV::Blocks { blocks } => list_fits(blocks),
        NetworkMessageV::Mempool { transactions } => list_fits(transactions),
        NetworkMessageV::ChainStatus(c) => encode_utf8(c.chain_id).len() <= u64::MAX && encode_utf8(c.best_hash).len() <= u64::MAX
            && encode_utf8(c.genesis_hash).len() <= u64::MAX,
        _ => true,
    }
}

/// Reads a handshake's fields at `p`.
pub open spec fn parse_handshake(d: Seq<u8>, p: int) -> Option<(HandshakeV, int)> {
    match dec_str(d, p) {
        None => None,
        Some((node_id, p1)) => match dec_str(d, p1) {
            None => None,
            Some((protocol_version, p2)) => match dec_str(d, p2) {
                None => None,
                Some((listen_addr, p3)) => match dec_u64(d, p3) {
                    None => None,
                    Some((best_height, p4)) => match dec_str(d, p4) {
                        None => None,
                        Some((best_hash, p5)) => Some((HandshakeV { node_id, protocol_version, listen_addr, best_height, best_hash }, p5)),
                    },
                },
            },
        },
    }
}

/// Reads a chain status's fields at `p`.
pub open spec fn parse_status(d: Seq<u8>, p: int) -> Option<(ChainStatusV, int)> {
    match dec_str(d, p) {
        None => None,
        Some((chain_id, p1)) => match dec_u64(d, p1) {
            None => None,
            Some((best_height, p2)) => match dec_str(d, p2) {
                None => None,
                Some((best_hash, p3)) => match dec_u32(d, p3) {
                    None => None,
                    Some((difficulty, p4)) => match dec_str(d, p4) {
                        None => None,
                        Some((genesis_hash, p5)) => Some((ChainStatusV { chain_id, best_height, best_hash, difficulty, genesis_hash }, p5)),
                    },
                },
            },
        },
    }
}

/// Reads a heartbeat's fields at `p`.
pub open spec fn parse_beat(d: Seq<u8>, p: int, pong: bool) -> Option<(NetworkMessageV, int)> {
    match dec_u64(d, p) {
        None => None,
        Some((nonce, q)) => match dec_u64(d, q) {
            None => None,
            Some((t, r)) => Some((
                if pong { NetworkMessageV::Pong { nonce, timestamp: t as i64 } } else { NetworkMessageV::Ping { nonce, timestamp: t as i64 } },
                r,
            )),
        },
    }
}

/// Reads a message at the start of `d`: the message and the number of bytes it took.
pub open spec fn parse_msg(d: Seq<u8>) -> Option<(NetworkMessageV, int)> {
    match dec_u32(d, 0) {
        None => None,
        Some((tag, p)) => if tag == 0 {
            parse_beat(d, p, false)
        } else if tag == 1 {
            parse_beat(d, p, true)
        } else if tag == 2 {
            match parse_handshake(d, p) {
                None => None,
                Some((h, q)) => Some((NetworkMessageV::Handshake(h), q)),
            }
        } else if tag == 3 {
            match dec_bytes(d, p) {
                None => None,
                Some((b, q)) => Some((NetworkMessageV::NewTransaction { transaction: b }, q)),
            }
        } else if tag == 4 {
            match dec_bytes(d, p) {
                None => None,
                Some((b, q)) => Some((NetworkMessageV::NewBlock { block: b }, q)),
            }
        } else if tag == 5 {
            match dec_u64(d, p) {
                None => None,
                Some((from_height, q)) => match dec_u32(d, q) {
                    None => None,
                    Some((limit, r)) => Some((NetworkMessageV::GetBlocks { from_height, limit }, r)),
                },
            }
        } else if tag == 6 {
            match dec_list(d, p) {
                None => None,
                Some((l, q)) => Some((NetworkMessageV::Blocks { blocks: l }, q)),
            }
        } else if tag == 7 {
            Some((NetworkMessageV::GetMempool, p))
        } else if tag == 8 {
            match dec_list(d, p) {
                None => None,
                Some((l, q)) => Some((NetworkMessageV::Mempool { transactions: l }, q)),
            }
        } else if tag == 9 {
            Some((NetworkMessageV::GetChainStatus, p))
        } else if tag == 10 {
            match parse_status(d, p) {
                None => None,
                Some((c, q)) => Some((NetworkMessageV::ChainStatus(c), q)),
            }
        } else {
            None
        },
    }
}

/// `a + b` stands at `p` exactly when `a` does and `b` follows it.
pub proof fn lemma_at_concat(d: Seq<u8>, p: int, a: Seq<u8>, b: Seq<u8>)
    ensures
        at(d, p, a + b) <==> (at(d, p, a) && at(d, p + a.len(), b)),
{
    if at(d, p, a + b) {
        let w = d.subrange(p, p + (a + b).len());
        assert(w == a + b);
        assert(d.subrange(p, p + a.len()) =~= w.subrange(0, a.len() as int));
        assert(w.subrange(0, a.len() as int) =~= a);
        assert(d.subrange(p + a.len(), p + a.len() + b.len()) =~= w.subrange(a.len() as int, w.len() as int));
        assert(w.subrange(a.len() as int, w.len() as int) =~= b);
    }
    if at(d, p, a) && at(d, p + a.len(), b) {
        assert(d.subrange(p, p + a.len()) == a);
        assert(d.subrange(p + a.len(), p + a.len() + b.len()) == b);
        assert(d.subrange(p, p + (a + b).len()) =~= a + b);
    }
}

/// A 64-bit number read back was written there.
proof fn lemma_u64_back(d: Seq<u8>, p: int)
    requires
        dec_u64(d, p) is Some,
    ensures
        at(d, p, enc_u64(dec_u64(d, p).unwrap().0)),
        dec_u64(d, p).unwrap().1 == p + 8,
{
    lemma_auto_spec_u64_to_from_le_bytes();
}

/// A 32-bit number read back was written there.
proof fn lemma_u32_back(d: Seq<u8>, p: int)
    requires
        dec_u32(d, p) is Some,
    ensures
        at(d, p, enc_u32(dec_u32(d, p).unwrap().0)),
        dec_u32(d, p).unwrap().1 == p + 4,
{
    lemma_auto_spec_u32_to_from_le_bytes();
}

/// A byte string read back was written there.
proof fn lemma_bytes_back(d: Seq<u8>, p: int)
    requires
        dec_bytes(d, p) is Some,
    ensures
        at(d, p, enc_bytes(dec_bytes(d, p).unwrap().0)),
        dec_bytes(d, p).unwrap().1 == p + enc_bytes(dec_bytes(d, p).unwrap().0).len(),
        dec_bytes(d, p).unwrap().0.len() <= u64::MAX,
{
    lemma_u64_back(d, p);
    lemma_enc_lens();
    let (b, q) = dec_bytes(d, p).unwrap();
    let (n, p8) = dec_u64(d, p).unwrap();
    assert(b.len() == n);
    lemma_at_concat(d, p, enc_u64(n), b);
}

/// Text read back was written there.
proof fn lemma_str_back(d: Seq<u8>, p: int)
    requires
        dec_str(d, p) is Some,
    ensures
        at(d, p, enc_str(dec_str(d, p).unwrap().0)),
        dec_str(d, p).unwrap().1 == p + enc_str(dec_str(d, p).unwrap().0).len(),
        encode_utf8(dec_str(d, p).unwrap().0).len() <= u64::MAX,
{
    lemma_bytes_back(d, p);
    let b = dec_bytes(d, p).unwrap().0;
    decode_utf8_encode_utf8(b);
}

/// Byte strings read back were written there.
proof fn lemma_items_back(d: Seq<u8>, p: int, n: nat)
    requires
        0 <= p <= d.len(),
        dec_items(d, p, n) is Some,
    ensures
        at(d, p, enc_items(dec_items(d, p, n).unwrap().0)),
        dec_items(d, p, n).unwrap().1 == p + enc_items(dec_items(d, p, n).unwrap().0).len(),
        dec_items(d, p, n).unwrap().0.len() == n,
        forall|i: int| 0 <= i < n ==> (#[trigger] dec_items(d, p, n).unwrap().0[i]).len() <= u64::MAX,
    decreases n,
{
    if n > 0 {
        lemma_bytes_back(d, p);
        let (b, q) = dec_bytes(d, p).unwrap();
        lemma_items_back(d, q, (n - 1) as nat);
        let (rest, r) = dec_items(d, q, (n - 1) as nat).unwrap();
        let l = seq![b] + rest;
        assert(l[0] == b);
        assert(l.drop_first() =~= rest);
        lemma_at_concat(d, p, enc_bytes(b), enc_items(rest));
        assert forall|i: int| 0 <= i < n implies (#[trigger] l[i]).len() <= u64::MAX by {
            if i > 0 {
                assert(l[i] == rest[i - 1]);
            }
        }
    } else {
        assert(enc_items(Seq::<Seq<u8>>::empty()) =~= Seq::<u8>::empty());
        assert(d.subrange(p, p) =~= Seq::<u8>::empty());
    }
}

/// A list read back was written there.
proof fn lemma_list_back(d: Seq<u8>, p: int)
    requires
        dec_list(d, p) is Some,
    ensures
        at(d, p, enc_list(dec_list(d, p).unwrap().0)),
        dec_list(d, p).unwrap().1 == p + enc_list(dec_list(d, p).unwrap().0).len(),
        list_fits(dec_list(d, p).unwrap().0),
{
    lemma_u64_back(d, p);
    lemma_enc_lens();
    let (n, q) = dec_u64(d, p).unwrap();
    lemma_items_back(d, q, n as nat);
    let l = dec_list(d, p).unwrap().0;
    assert(l.len() == n);
    lemma_at_concat(d, p, enc_u64(n), enc_items(l));
}

/// A handshake read back was written there.
proof fn lemma_handshake_back(d: Seq<u8>, p: int)
    requires
        parse_handshake(d, p) is Some,
    ensures
        at(d, p, handshake_bytes(parse_handshake(d, p).unwrap().0)),
        parse_handshake(d, p).unwrap().1 == p + handshake_bytes(parse_handshake(d, p).unwrap().0).len(),
        msg_fits(NetworkMessageV::Handshake(parse_handshake(d, p).unwrap().0)),
{
    lemma_enc_lens();
    let (s1, p1) = dec_str(d, p).unwrap();
    lemma_str_back(d, p);
    let (s2, p2) = dec_str(d, p1).unwrap();
    lemma_str_back(d, p1);
    let (s3, p3) = dec_str(d, p2).unwrap();
    lemma_str_back(d, p2);
    let (h, p4) = dec_u64(d, p3).unwrap();
    lemma_u64_back(d, p3);
    let (s5, p5) = dec_str(d, p4).unwrap();
    lemma_str_back(d, p4);
    lemma_at_concat(d, p, enc_str(s1), enc_str(s2));
    lemma_at_concat(d, p, enc_str(s1) + enc_str(s2), enc_str(s3));
    lemma_at_concat(d, p, enc_str(s1) + enc_str(s2) + enc_str(s3), enc_u64(h));
    lemma_at_concat(d, p, enc_str(s1) + enc_str(s2) + enc_str(s3) + enc_u64(h), enc_str(s5));
}

/// A chain status read back was written there.
proof fn lemma_status_back(d: Seq<u8>, p: int)
    requires
        parse_status(d, p) is Some,
    ensures
        at(d, p, status_bytes(parse_status(d, p).unwrap().0)),
        parse_status(d, p).unwrap().1 == p + status_bytes(parse_status(d, p).unwrap().0).len(),
        msg_fits(NetworkMessageV::ChainStatus(parse_status(d, p).unwrap().0)),
{
    lemma_enc_lens();
    let (s1, p1) = dec_str(d, p).unwrap();
    lemma_str_back(d, p);
    let (h, p2) = dec_u64(d, p1).unwrap();
    lemma_u64_back(d, p1);
    let (s3, p3) = dec_str(d, p2).unwrap();
    lemma_str_back(d, p2);
    let (df, p4) = dec_u32(d, p3).unwrap();
    lemma_u32_back(d, p3);
    let (s5, p5) = dec_str(d, p4).unwrap();
    lemma_str_back(d, p4);
    lemma_at_concat(d, p, enc_str(s1), enc_u64(h));
    lemma_at_concat(d, p, enc_str(s1) + enc_u64(h), enc_str(s3));
    lemma_at_concat(d, p, enc_str(s1) + enc_u64(h) + enc_str(s3), enc_u32(df));
    lemma_at_concat(d, p, enc_str(s1) + enc_u64(h) + enc_str(s3) + enc_u32(df), enc_str(s5));
}

/// Written handshake fields read back.
proof fn lemma_handshake_read(d: Seq<u8>, p: int, h: HandshakeV)
    requires
        msg_fits(NetworkMessageV::Handshake(h)),
        at(d, p, handshake_bytes(h)),
    ensures
        parse_handshake(d, p) == Some((h, p + handshake_bytes(h).len())),
{
    lemma_enc_lens();
    let a1 = enc_str(h.node_id);
    let a2 = enc_str(h.protocol_version);
    let a3 = enc_str(h.listen_addr);
    let a4 = enc_u64(h.best_height);
    let a5 = enc_str(h.best_hash);
    lemma_at_concat(d, p, a1 + a2 + a3 + a4, a5);
    lemma_at_concat(d, p, a1 + a2 + a3, a4);
    lemma_at_concat(d, p, a1 + a2, a3);
    lemma_at_concat(d, p, a1, a2);
    lemma_dec_str(d, p, h.node_id);
    lemma_dec_str(d, p + a1.len(), h.protocol_version);
    lemma_dec_str(d, p + a1.len() + a2.len(), h.listen_addr);
    lemma_dec_u64(d, p + a1.len() + a2.len() + a3.len(), h.best_height);
    lemma_dec_str(d, p + a1.len() + a2.len() + a3.len() + 8, h.best_hash);
}

/// Written chain status fields read back.
proof fn lemma_status_read(d: Seq<u8>, p: int, c: ChainStatusV)
    requires
        msg_fits(NetworkMessageV::ChainStatus(c)),
        at(d, p, status_bytes(c)),
    ensures
        parse_status(d, p) == Some((c, p + status_bytes(c).len())),
{
    lemma_enc_lens();
    let a1 = enc_str(c.chain_id);
    let a2 = enc_u64(c.best_height);
    let a3 = enc_str(c.best_hash);
    let a4 = enc_u32(c.difficulty);
    let a5 = enc_str(c.genesis_hash);
    lemma_at_concat(d, p, a1 + a2 + a3 + a4, a5);
    lemma_at_concat(d, p, a1 + a2 + a3, a4);
    lemma_at_concat(d, p, a1 + a2, a3);
    lemma_at_concat(d, p, a1, a2);
    lemma_dec_str(d, p, c.chain_id);
    lemma_dec_u64(d, p + a1.len(), c.best_height);
    lemma_dec_str(d, p + a1.len() + 8, c.best_hash);
    lemma_dec_u32(d, p + a1.len() + 8 + a3.len(), c.difficulty);
    lemma_dec_str(d, p + a1.len() + 8 + a3.len() + 4, c.genesis_hash);
}

/// Whatever reads as a message starts with that message's bytes.
pub proof fn lemma_parsed_prefix(d: Seq<u8>)
    requires
        parse_msg(d) is Some,
    ensures
        parse_msg(d).unwrap().1 == msg_bytes(parse_msg(d).unwrap().0).len(),
        d.subrange(0, parse_msg(d).unwrap().1) == msg_bytes(parse_msg(d).unwrap().0),
        msg_fits(parse_msg(d).unwrap().0),
{
    lemma_enc_lens();
    lemma_u32_back(d, 0);
    let (tag, p) = dec_u32(d, 0).unwrap();
    let (m, k) = parse_msg(d).unwrap();
    let t = enc_u32(tag);
    if tag == 0 || tag == 1 {
        lemma_u64_back(d, p);
        let (nonce, q) = dec_u64(d, p).unwrap();
        lemma_u64_back(d, q);
        let (x, r) = dec_u64(d, q).unwrap();
        assert(((x as i64) as u64) == x) by (bit_vector);
        lemma_at_concat(d, p, enc_u64(nonce), enc_u64(x));
        lemma_at_concat(d, 0, t, enc_u64(nonce) + enc_u64(x));
    } else if tag == 2 {
        lemma_handshake_back(d, p);
        lemma_at_concat(d, 0, t, handshake_bytes(m->Handshake_0));
    } else if tag == 3 || tag == 4 {
        lemma_bytes_back(d, p);
        let b = dec_bytes(d, p).unwrap().0;
        lemma_at_concat(d, 0, t, enc_bytes(b));
    } else if tag == 5 {
        lemma_u64_back(d, p);
        let (f, q) = dec_u64(d, p).unwrap();
        lemma_u32_back(d, q);
        let (l, r) = dec_u32(d, q).unwrap();
        lemma_at_concat(d, p, enc_u64(f), enc_u32(l));
        lemma_at_concat(d, 0, t, enc_u64(f) + enc_u32(l));
    } else if tag == 6 || tag == 8 {
        lemma_list_back(d, p);
        let l = dec_list(d, p).unwrap().0;
        lemma_at_concat(d, 0, t, enc_list(l));
    } else if tag == 7 || tag == 9 {
    } else {
        lemma_status_back(d, p);
        lemma_at_concat(d, 0, t, status_bytes(m->ChainStatus_0));
    }
}

/// Reading back the bytes of a message, whatever follows them, gives the message.
#[verifier::spinoff_prover]
#[verifier::rlimit(60)]
pub proof fn lemma_parse_encoded(m: NetworkMessageV, rest: Seq<u8>)
    requires
        msg_fits(m),
    ensures
        parse_msg(msg_bytes(m) + rest) == Some((m, msg_bytes(m).len() as int)),
{
    lemma_enc_lens();
    let d = msg_bytes(m) + rest;
    let w = msg_bytes(m);
    assert(d.subrange(0, w.len() as int) =~= w);
    assert(at(d, 0, w));
    match m {
        NetworkMessageV::Ping { nonce, timestamp } => {
            lemma_at_concat(d, 0, enc_u32(0), enc_u64(nonce) + enc_u64(timestamp as u64));
            lemma_at_concat(d, 4, enc_u64(nonce), enc_u64(timestamp as u64));
            lemma_dec_u32(d, 0, 0);
            lemma_dec_u64(d, 4, nonce);
            lemma_dec_u64(d, 12, timestamp as u64);
            assert(((timestamp as u64) as i64) == timestamp) by (bit_vector);
        },
        NetworkMessageV::Pong { nonce, timestamp } => {
            lemma_at_concat(d, 0, enc_u32(1), enc_u64(nonce) + enc_u64(timestamp as u64));
            lemma_at_concat(d, 4, enc_u64(nonce), enc_u64(timestamp as u64));
            lemma_dec_u32(d, 0, 1);
            lemma_dec_u64(d, 4, nonce);
            lemma_dec_u64(d, 12, timestamp as u64);
            assert(((timestamp as u64) as i64) == timestamp) by (bit_vector);
        },
        NetworkMessageV::Handshake(h) => {
            lemma_at_concat(d, 0, enc_u32(2), handshake_bytes(h));
            lemma_dec_u32(d, 0, 2);
            lemma_handshake_read(d, 4, h);
        },
        NetworkMessageV::NewTransaction { transaction } => {
            lemma_at_concat(d, 0, enc_u32(3), enc_bytes(transaction));
            lemma_dec_u32(d, 0, 3);
            lemma_dec_bytes(d, 4, transaction);
        },
        NetworkMessageV::NewBlock { block } => {
            lemma_at_concat(d, 0, enc_u32(4), enc_bytes(block));
            lemma_dec_u32(d, 0, 4);
            lemma_dec_bytes(d, 4, block);
        },
        NetworkMessageV::GetBlocks { from_height, limit } => {
            lemma_at_concat(d, 0, enc_u32(5), enc_u64(from_height) + enc_u32(limit));
            lemma_at_concat(d, 4, enc_u64(from_height), enc_u32(limit));
            lemma_dec_u32(d, 0, 5);
            lemma_dec_u64(d, 4, from_height);
            lemma_dec_u32(d, 12, limit);
        },
        NetworkMessageV::Blocks { blocks } => {
            lemma_at_concat(d, 0, enc_u32(6), enc_list(blocks));
            lemma_dec_u32(d, 0, 6);
            lemma_dec_list(d, 4, blocks);
        },
        NetworkMessageV::GetMempool => {
            lemma_dec_u32(d, 0, 7);
        },
        NetworkMessageV::Mempool { transactions } => {
            lemma_at_concat(d, 0, enc_u32(8), enc_list(transactions));
            lemma_dec_u32(d, 0, 8);
            lemma_dec_list(d, 4, transactions);
        },
        NetworkMessageV::GetChainStatus => {
            lemma_dec_u32(d, 0, 9);
        },
        NetworkMessageV::ChainStatus(c) => {
            lemma_at_concat(d, 0, enc_u32(10), status_bytes(c));
            lemma_dec_u32(d, 0, 10);
            lemma_status_read(d, 4, c);
        },
    }
}

/// The bytes of a message.
pub fn encode_message(m: &NetworkMessage) -> (r: Vec<u8>)
    ensures
        r@ == msg_bytes(m@),
        msg_fits(m@),
{
    let mut out: Vec<u8> = Vec::new();
    match m {
        NetworkMessage::Ping { nonce, timestamp } => {
            put_u32(&mut out, 0);
            put_u64(&mut out, *nonce);
            put_u64(&mut out, *timestamp as u64);
        },
        NetworkMessage::Pong { nonce, timestamp } => {
            put_u32(&mut out, 1);
            put_u64(&mut out, *nonce);
            put_u64(&mut out, *timestamp as u64);
        },
        NetworkMessage::Handshake(h) => {
            put_u32(&mut out, 2);
            put_str(&mut out, h.node_id.as_str());
            put_str(&mut out, h.protocol_version.as_str());
            put_str(&mut out, h.listen_addr.as_str());
            put_u64(&mut out, h.best_height);
            put_str(&mut out, h.best_hash.as_str());
        },
        NetworkMessage::NewTransaction { transaction } => {
            put_u32(&mut out, 3);
            put_bytes(&mut out, transaction.as_slice());
        },
        NetworkMessage::NewBlock { block } => {
            put_u32(&mut out, 4);
            put_bytes(&mut out, block.as_slice());
        },
        NetworkMessage::GetBlocks { from_height, limit } => {
            put_u32(&mut out, 5);
            put_u64(&mut out, *from_height);
            put_u32(&mut out, *limit);
        },
        NetworkMessage::Blocks { blocks } => {
            put_u32(&mut out, 6);
            put_list(&mut out, blocks);
        },
        NetworkMessage::GetMempool => {
            put_u32(&mut out, 7);
        },
        NetworkMessage::Mempool { transactions } => {
            put_u32(&mut out, 8);
            put_list(&mut out, transactions);
        },
        NetworkMessage::GetChainStatus => {
            put_u32(&mut out, 9);
        },
        NetworkMessage::ChainStatus(c) => {
            put_u32(&mut out, 10);
            put_str(&mut out, c.chain_id.as_str());
            put_u64(&mut out, c.best_height);
            put_str(&mut out, c.best_hash.as_str());
            put_u32(&mut out, c.difficulty);
            put_str(&mut out, c.genesis_hash.as_str());
        },
    }
    proof {
        assert(out@ =~= msg_bytes(m@));
    }
    out
}

/// Reads a message at the start of `d`, with the number of bytes it took.
pub fn decode_message(d: &[u8]) -> (r: Option<(NetworkMessage, usize)>)
    ensures
        match r {
            Some((m, k)) => parse_msg(d@) == Some((m@, k as int)),
            None => parse_msg(d@) is None,
        },
{
    let (tag, p) = match get_u32(d, 0) {
        Some(x) => x,
        None => { return None; },
    };
    if tag == 0 || tag == 1 {
        let (nonce, q) = match get_u64(d, p) { Some(x) => x, None => { return None; } };
        let (t, r) = match get_u64(d, q) { Some(x) => x, None => { return None; } };
        let timestamp = t as i64;
        if tag == 0 {
            Some((NetworkMessage::Ping { nonce, timestamp }, r))
        } else {
            Some((NetworkMessage::Pong { nonce, timestamp }, r))
        }
    } else if tag == 2 {
        let (node_id, p1) = match get_str(d, p) { Some(x) => x, None => { return None; } };
        let (protocol_version, p2) = match get_str(d, p1) { Some(x) => x, None => { return None; } };
        let (listen_addr, p3) = match get_str(d, p2) { Some(x) => x, None => { return None; } };
        let (best_height, p4) = match get_u64(d, p3) { Some(x) => x, None => { return None; } };
        let (best_hash, p5) = match get_str(d, p4) { Some(x) => x, None => { return None; } };
        Some((NetworkMessage::Handshake(Handshake { node_id, protocol_version, listen_addr, best_height, best_hash }), p5))
    } else if tag == 3 {
        let (b, q) = match get_bytes(d, p) { Some(x) => x, None => { return None; } };
        Some((NetworkMessage::NewTransaction { transaction: b }, q))
    } else if tag == 4 {
        let (b, q) = match get_bytes(d, p) { Some(x) => x, None => { return None; } };
        Some((NetworkMessage::NewBlock { block: b }, q))
    } else if tag == 5 {
        let (from_height, q) = match get_u64(d, p) { Some(x) => x, None => { return None; } };
        let (limit, r) = match get_u32(d, q) { Some(x) => x, None => { return None; } };
        Some((NetworkMessage::GetBlocks { from_height, limit }, r))
    } else if tag == 6 {
        let (l, q) = match get_list(d, p) { Some(x) => x, None => { return None; } };
        Some((NetworkMessage::Blocks { blocks: l }, q))
    } else if tag == 7 {
        Some((NetworkMessage::GetMempool, p))
    } else if tag == 8 {
        let (l, q) = match get_list(d, p) { Some(x) => x, None => { return None; } };
        Some((NetworkMessage::Mempool { transactions: l }, q))
    } else if tag == 9 {
        Some((NetworkMessage::GetChainStatus, p))
    } else if tag == 10 {
        let (chain_id, p1) = match get_str(d, p) { Some(x) => x, None => { return None; } };
        let (best_height, p2) = match get_u64(d, p1) { Some(x) => x, None => { return None; } };
        let (best_hash, p3) = match get_str(d, p2) { Some(x) => x, None => { return None; } };
        let (difficulty, p4) = match get_u32(d, p3) { Some(x) => x, None => { return None; } };
        let (genesis_hash, p5) = match get_str(d, p4) { Some(x) => x, None => { return None; } };
        Some((NetworkMessage::ChainStatus(ChainStatus { chain_id, best_height, best_hash, difficulty, genesis_hash }), p5))
    } else {
        None
    }
}

} // verus!
