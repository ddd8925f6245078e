//! The byte layout of transactions and blocks as peers exchange them: the
//! fields in declaration order, integers little-endian at their width, text
//! and byte strings with a 64-bit length, an optional value as a tag byte
//! (0 absent, 1 present) and the value, a transaction kind as its 32-bit
//! index, and a block's transactions as a 64-bit count followed by each.

use vstd::prelude::*;
use vstd::utf8::encode_utf8;
use crate::binary::{enc_u32, enc_u64, enc_bytes, enc_str, dec_u32, dec_u64, dec_bytes, dec_str, at,
    lemma_enc_lens, lemma_dec_u32, lemma_dec_u64, lemma_dec_bytes, lemma_dec_str,
    put_u32, put_u64, put_bytes, put_str, get_u32, get_u64, get_bytes, get_str};
use crate::block::{Block, BlockV, txs_view};
use crate::transaction::{Transaction, TransactionV, TransactionKind};
use crate::wire::lemma_at_concat;

verus! {

/// Two little-endian bytes.
pub open spec fn enc_u16(x: u16) -> Seq<u8> {
    seq![(x % 256) as u8, (x / 256) as u8]
}

/// Reads two little-endian bytes at `p`.
pub open spec fn dec_u16(d: Seq<u8>, p: int) -> Option<(u16, int)> {
    if 0 <= p && p + 2 <= d.len() {
        Some(((d[p] + 256 * d[p + 1]) as u16, p + 2))
    } else {
        None
    }
}

/// A signed 64-bit number: its two's-complement bits as an unsigned one.
pub open spec fn enc_i64(x: i64) -> Seq<u8> {
    enc_u64(x as u64)
}

/// The index of a transaction kind.
pub open spec fn kind_tag(k: TransactionKind) -> u32 {
    match k {
        TransactionKind::Transfer => 0,
        TransactionKind::ContractDeploy => 1,
        TransactionKind::ContractCall => 2,
        TransactionKind::DefiAction => 3,
        TransactionKind::NftMint => 4,
        TransactionKind::NftTransfer => 5,
        TransactionKind::SystemReward => 6,
    }
}

/// The kind with a given index.
pub open spec fn kind_of(t: u32) -> Option<TransactionKind> {
    if t == 0 { Some(TransactionKind::Transfer) }
    else if t == 1 { Some(TransactionKind::ContractDeploy) }
    else if t == 2 { Some(TransactionKind::ContractCall) }
    else if t == 3 { Some(TransactionKind::DefiAction) }
    else if t == 4 { Some(TransactionKind::NftMint) }
    else if t == 5 { Some(TransactionKind::NftTransfer) }
    else if t == 6 { Some(TransactionKind::SystemReward) }
    else { None }
}

/// Optional text.
pub open spec fn enc_opt_str(o: Option<Seq<char>>) -> Seq<u8> {
    match o {
        None => seq![0u8],
        Some(s) => seq![1u8] + enc_str(s),
    }
}

/// An optional byte string.
pub open spec fn enc_opt_bytes(o: Option<Seq<u8>>) -> Seq<u8> {
    match o {
        None => seq![0u8],
        Some(b) => seq![1u8] + enc_bytes(b),
    }
}

/// The bytes of a transaction.
pub open spec fn tx_bytes(t: TransactionV) -> Seq<u8> {
    enc_str(t.id) + (enc_u32(kind_tag(t.kind)) + (enc_str(t.from) + (enc_str(t.to) + (enc_u64(t.amount)
        + (enc_u64(t.nonce) + (enc_i64(t.timestamp) + (enc_opt_str(t.signature) + enc_opt_bytes(t.payload))))))))
}

/// Transactions one after another.
pub open spec fn txs_bytes(ts: Seq<TransactionV>) -> Seq<u8>
    decreases ts.len(),
{
    if ts.len() == 0 {
        Seq::empty()
    } else {
        tx_bytes(ts[0]) + txs_bytes(ts.drop_first())
    }
}

/// The bytes of a block.
pub open spec fn block_bytes(b: BlockV) -> Seq<u8> {
    enc_u16(b.version) + (enc_u64(b.index) + (enc_i64(b.timestamp) + (enc_u32(b.difficulty) + (enc_str(b.miner)
        + (enc_u64(b.transactions.len() as u64) + (txs_bytes(b.transactions) + (enc_str(b.previous_hash)
        + (enc_str(b.hash) + (enc_u64(b.nonce) + enc_str(b.merkle_root))))))))))
}

/// Whether the text and byte strings of a transaction have lengths a 64-bit count can hold.
pub open spec fn tx_fits(t: TransactionV) -> bool {
    &&& encode_utf8(t.id).len() <= u64::MAX
    &&& encode_utf8(t.from).len() <= u64::MAX
    &&& encode_utf8(t.to).len() <= u64::MAX
    &&& (t.signature matches Some(s) ==> encode_utf8(s).len() <= u64::MAX)
    &&& (t.payload matches Some(p) ==> p.len() <= u64::MAX)
}

/// Whether every length in a block can be counted in 64 bits.
pub open spec fn block_fits(b: BlockV) -> bool {
    &&& encode_utf8(b.miner).len() <= u64::MAX
    &&& encode_utf8(b.previous_hash).len() <= u64::MAX
    &&& encode_utf8(b.hash).len() <= u64::MAX
    &&& encode_utf8(b.merkle_root).len() <= u64::MAX
    &&& b.transactions.len() <= u64::MAX
    &&& forall|i: int| 0 <= i < b.transactions.len() ==> tx_fits(#[trigger] b.transactions[i])
}

/// Reads a tag byte at `p`.
pub open spec fn dec_tag(d: Seq<u8>, p: int) -> Option<(u8, int)> {
    if 0 <= p < d.len() { Some((d[p], p + 1)) } else { None }
}

/// Reads optional text at `p`.
pub open spec fn dec_opt_str(d: Seq<u8>, p: int) -> Option<(Option<Seq<char>>, int)> {
    match dec_tag(d, p) {
        None => None,
        Some((t, q)) => if t == 0 {
            Some((None, q))
        } else if t == 1 {
            match dec_str(d, q) {
                None => None,
                Some((s, r)) => Some((Some(s), r)),
            }
        } else {
            None
        },
    }
}

/// Reads an optional byte string at `p`.
pub open spec fn dec_opt_bytes(d: Seq<u8>, p: int) -> Option<(Option<Seq<u8>>, int)> {
    match dec_tag(d, p) {
        None => None,
        Some((t, q)) => if t == 0 {
            Some((None, q))
        } else if t == 1 {
            match dec_bytes(d, q) {
                None => None,
                Some((b, r)) => Some((Some(b), r)),
            }
        } else {
            None
        },
    }
}

/// Reads a transaction at `p`.
pub open spec fn parse_tx(d: Seq<u8>, p: int) -> Option<(TransactionV, int)> {
    match dec_str(d, p) {
        None => None,
        Some((id, p1)) => match dec_u32(d, p1) {
            None => None,
            Some((tag, p2)) => match kind_of(tag) {
                None => None,
                Some(kind) => match dec_str(d, p2) {
                    None => None,
                    Some((from, p3)) => match dec_str(d, p3) {
                        None => None,
                        Some((to, p4)) => match dec_u64(d, p4) {
                            None => None,
                            Some((amount, p5)) => match dec_u64(d, p5) {
                                None => None,
                                Some((nonce, p6)) => match dec_u64(d, p6) {
                                    None => None,
                                    Some((ts, p7)) => match dec_opt_str(d, p7) {
                                        None => None,
                                        Some((signature, p8)) => match dec_opt_bytes(d, p8) {
                                            None => None,
                                            Some((payload, p9)) => Some((
                                                TransactionV { id, kind, from, to, amount, nonce, timestamp: ts as i64, signature, payload },
                                                p9,
                                            )),
                                        },
                                    },
                                },
                            },
                        },
                    },
                },
            },
        },
    }
}

/// Reads `n` transactions at `p`.
pub open spec fn parse_txs(d: Seq<u8>, p: int, n: nat) -> Option<(Seq<TransactionV>, int)>
    decreases n,
{
    if n == 0 {
        Some((Seq::empty(), p))
    } else {
        match parse_tx(d, p) {
            None => None,
            Some((t, q)) => match parse_txs(d, q, (n - 1) as nat) {
                None => None,
                Some((ts, r)) => Some((seq![t] + ts, r)),
            },
        }
    }
}

/// Reads a block at `p`.
pub open spec fn parse_block(d: Seq<u8>, p: int) -> Option<(BlockV, int)> {
    match dec_u16(d, p) {
        None => None,
        Some((version, p1)) => match dec_u64(d, p1) {
            None => None,
            Some((index, p2)) => match dec_u64(d, p2) {
                None => None,
                Some((ts, p3)) => match dec_u32(d, p3) {
                    None => None,
                    Some((difficulty, p4)) => match dec_str(d, p4) {
                        None => None,
                        Some((miner, p5)) => match dec_u64(d, p5) {
                            None => None,
                            Some((n, p6)) => match parse_txs(d, p6, n as nat) {
                                None => None,
                                Some((transactions, p7)) => match dec_str(d, p7) {
                                    None => None,
                                    Some((previous_hash, p8)) => match dec_str(d, p8) {
                                        None => None,
                                        Some((hash, p9)) => match dec_u64(d, p9) {
                                            None => None,
                                            Some((nonce, p10)) => match dec_str(d, p10) {
                                                None => None,
                                                Some((merkle_root, p11)) => Some((
                                                    BlockV { version, index, timestamp: ts as i64, difficulty, miner, transactions, previous_hash, hash, nonce, merkle_root },
                                                    p11,
                                                )),
                                            },
                                        },
                                    },
                                },
                            },
                        },
                    },
                },
            },
        },
    }
}

// ---------------------------------------------------------------- roundtrip

/// Written optional text reads back.
pub proof fn lemma_dec_opt_str(d: Seq<u8>, p: int, o: Option<Seq<char>>)
    requires
        o matches Some(s) ==> encode_utf8(s).len() <= u64::MAX,
        at(d, p, enc_opt_str(o)),
    ensures
        dec_opt_str(d, p) == Some((o, p + enc_opt_str(o).len())),
{
    assert(d[p] == enc_opt_str(o)[0]);
    match o {
        None => {},
        Some(s) => {
            lemma_at_concat(d, p, seq![1u8], enc_str(s));
            lemma_dec_str(d, p + 1, s);
        },
    }
}

/// A written optional byte string reads back.
pub proof fn lemma_dec_opt_bytes(d: Seq<u8>, p: int, o: Option<Seq<u8>>)
    requires
        o matches Some(b) ==> b.len() <= u64::MAX,
        at(d, p, enc_opt_bytes(o)),
    ensures
        dec_opt_bytes(d, p) == Some((o, p + enc_opt_bytes(o).len())),
{
    assert(d[p] == enc_opt_bytes(o)[0]);
    match o {
        None => {},
        Some(b) => {
            lemma_at_concat(d, p, seq![1u8], enc_bytes(b));
            lemma_dec_bytes(d, p + 1, b);
        },
    }
}

/// A written transaction reads back.
#[verifier::rlimit(60)]
#[verifier::spinoff_prover]
pub proof fn lemma_parse_tx(d: Seq<u8>, p: int, t: TransactionV)
    requires
        tx_fits(t),
        at(d, p, tx_bytes(t)),
    ensures
        parse_tx(d, p) == Some((t, p + tx_bytes(t).len())),
{
    lemma_enc_lens();
    let a0 = enc_str(t.id);
    let a1 = enc_u32(kind_tag(t.kind));
    let a2 = enc_str(t.from);
    let a3 = enc_str(t.to);
    let a4 = enc_u64(t.amount);
    let a5 = enc_u64(t.nonce);
    let a6 = enc_i64(t.timestamp);
    let a7 = enc_opt_str(t.signature);
    let a8 = enc_opt_bytes(t.payload);
    let q1 = p + a0.len();
    let q2 = q1 + 4;
    let q3 = q2 + a2.len();
    let q4 = q3 + a3.len();
    let q5 = q4 + 8;
    let q6 = q5 + 8;
    let q7 = q6 + 8;
    let q8 = q7 + a7.len();
    lemma_at_concat(d, p, a0, a1 + (a2 + (a3 + (a4 + (a5 + (a6 + (a7 + a8)))))));
    lemma_at_concat(d, q1, a1, a2 + (a3 + (a4 + (a5 + (a6 + (a7 + a8))))));
    lemma_at_concat(d, q2, a2, a3 + (a4 + (a5 + (a6 + (a7 + a8)))));
    lemma_at_concat(d, q3, a3, a4 + (a5 + (a6 + (a7 + a8))));
    lemma_at_concat(d, q4, a4, a5 + (a6 + (a7 + a8)));
    lemma_at_concat(d, q5, a5, a6 + (a7 + a8));
    lemma_at_concat(d, q6, a6, a7 + a8);
    lemma_at_concat(d, q7, a7, a8);
    lemma_dec_str(d, p, t.id);
    lemma_dec_u32(d, q1, kind_tag(t.kind));
    lemma_dec_str(d, q2, t.from);
    lemma_dec_str(d, q3, t.to);
    lemma_dec_u64(d, q4, t.amount);
    lemma_dec_u64(d, q5, t.nonce);
    lemma_dec_u64(d, q6, t.timestamp as u64);
    let ts = t.timestamp;
    assert(((ts as u64) as i64) == ts) by (bit_vector);
    lemma_dec_opt_str(d, q7, t.signature);
    lemma_dec_opt_bytes(d, q8, t.payload);
    assert(kind_of(kind_tag(t.kind)) == Some(t.kind));
}

/// Written transactions read back.
pub proof fn lemma_parse_txs(d: Seq<u8>, p: int, ts: Seq<TransactionV>)
    requires
        forall|i: int| 0 <= i < ts.len() ==> tx_fits(#[trigger] ts[i]),
        at(d, p, txs_bytes(ts)),
    ensures
        parse_txs(d, p, ts.len()) == Some((ts, p + txs_bytes(ts).len())),
    decreases ts.len(),
{
    if ts.len() > 0 {
        let first = tx_bytes(ts[0]);
        let rest = txs_bytes(ts.drop_first());
        lemma_at_concat(d, p, first, rest);
        assert(tx_fits(ts[0]));
        lemma_parse_tx(d, p, ts[0]);
        assert forall|i: int| 0 <= i < ts.drop_first().len() implies tx_fits(#[trigger] ts.drop_first()[i]) by {
            assert(ts.drop_first()[i] == ts[i + 1]);
        }
        lemma_parse_txs(d, p + first.len(), ts.drop_first());
        assert(seq![ts[0]] + ts.drop_first() =~= ts);
    }
}

/// A written 16-bit number reads back.
pub proof fn lemma_dec_u16(d: Seq<u8>, p: int, x: u16)
    requires
        at(d, p, enc_u16(x)),
    ensures
        dec_u16(d, p) == Some((x, p + 2)),
{
    assert(d[p] == enc_u16(x)[0]);
    assert(d[p + 1] == enc_u16(x)[1]);
}

/// Reading back the bytes of a block, wherever they stand, gives the block.
#[verifier::rlimit(80)]
#[verifier::spinoff_prover]
pub proof fn lemma_parse_block(d: Seq<u8>, p: int, b: BlockV)
    requires
        block_fits(b),
        at(d, p, block_bytes(b)),
    ensures
        parse_block(d, p) == Some((b, p + block_bytes(b).len())),
{
    lemma_enc_lens();
    let a0 = enc_u16(b.version);
    let a1 = enc_u64(b.index);
    let a2 = enc_i64(b.timestamp);
    let a3 = enc_u32(b.difficulty);
    let a4 = enc_str(b.miner);
    let a5 = enc_u64(b.transactions.len() as u64);
    let a6 = txs_bytes(b.transactions);
    let a7 = enc_str(b.previous_hash);
    let a8 = enc_str(b.hash);
    let a9 = enc_u64(b.nonce);
    let a10 = enc_str(b.merkle_root);
    let q1 = p + 2;
    let q2 = q1 + 8;
    let q3 = q2 + 8;
    let q4 = q3 + 4;
    let q5 = q4 + a4.len();
    let q6 = q5 + 8;
    let q7 = q6 + a6.len();
    let q8 = q7 + a7.len();
    let q9 = q8 + a8.len();
    let q10 = q9 + 8;
    lemma_at_concat(d, p, a0, a1 + (a2 + (a3 + (a4 + (a5 + (a6 + (a7 + (a8 + (a9 + a10)))))))));
    lemma_at_concat(d, q1, a1, a2 + (a3 + (a4 + (a5 + (a6 + (a7 + (a8 + (a9 + a10))))))));
    lemma_at_concat(d, q2, a2, a3 + (a4 + (a5 + (a6 + (a7 + (a8 + (a9 + a10)))))));
    lemma_at_concat(d, q3, a3, a4 + (a5 + (a6 + (a7 + (a8 + (a9 + a10))))));
    lemma_at_concat(d, q4, a4, a5 + (a6 + (a7 + (a8 + (a9 + a10)))));
    lemma_at_concat(d, q5, a5, a6 + (a7 + (a8 + (a9 + a10))));
    lemma_at_concat(d, q6, a6, a7 + (a8 + (a9 + a10)));
    lemma_at_concat(d, q7, a7, a8 + (a9 + a10));
    lemma_at_concat(d, q8, a8, a9 + a10);
    lemma_at_concat(d, q9, a9, a10);
    lemma_dec_u16(d, p, b.version);
    lemma_dec_u64(d, q1, b.index);
    lemma_dec_u64(d, q2, b.timestamp as u64);
    let ts = b.timestamp;
    assert(((ts as u64) as i64) == ts) by (bit_vector);
    lemma_dec_u32(d, q3, b.difficulty);
    lemma_dec_str(d, q4, b.miner);
    lemma_dec_u64(d, q5, b.transactions.len() as u64);
    lemma_parse_txs(d, q6, b.transactions);
    lemma_dec_str(d, q7, b.previous_hash);
    lemma_dec_str(d, q8, b.hash);
    lemma_dec_u64(d, q9, b.nonce);
    lemma_dec_str(d, q10, b.merkle_root);
}

/// Decoding the bytes of a transaction gives the transaction back.
pub proof fn law_transaction_roundtrip(t: TransactionV)
    requires
        tx_fits(t),
    ensures
        parse_tx(tx_bytes(t), 0) == Some((t, tx_bytes(t).len() as int)),
{
    let d = tx_bytes(t);
    assert(d.subrange(0, d.len() as int) =~= d);
    lemma_parse_tx(d, 0, t);
}

/// Decoding the bytes of a block gives the block back.
pub proof fn law_block_roundtrip(b: BlockV)
    requires
        block_fits(b),
    ensures
        parse_block(block_bytes(b), 0) == Some((b, block_bytes(b).len() as int)),
{
    let d = block_bytes(b);
    assert(d.subrange(0, d.len() as int) =~= d);
    lemma_parse_block(d, 0, b);
}

// ---------------------------------------------------------------- exec

/// Text, on its own.
fn field_str(s: &str) -> (r: Vec<u8>)
    ensures
        r@ == enc_str(s@),
        encode_utf8(s@).len() <= u64::MAX,
{
    let mut out: Vec<u8> = Vec::new();
    put_str(&mut out, s);
    proof { assert(out@ =~= enc_str(s@)); }
    out
}

/// A 64-bit number, on its own.
fn field_u64(x: u64) -> (r: Vec<u8>)
    ensures
        r@ == enc_u64(x),
{
    let mut out: Vec<u8> = Vec::new();
    put_u64(&mut out, x);
    proof { assert(out@ =~= enc_u64(x)); }
    out
}

/// `a` followed by `b`.
fn joined(a: Vec<u8>, b: &Vec<u8>) -> (r: Vec<u8>)
    ensures
        r@ == a@ + b@,
{
    let mut a = a;
    crate::binary::append_bytes(&mut a, b.as_slice());
    a
}

/// Appends a transaction's bytes.
pub fn put_transaction(out: &mut Vec<u8>, t: &Transaction)
    ensures
        final(out)@ == old(out)@ + tx_bytes(t@),
        tx_fits(t@),
{
    let mut sig: Vec<u8> = Vec::new();
    match &t.signature {
        None => { sig.push(0u8); },
        Some(s) => {
            sig.push(1u8);
            put_str(&mut sig, s.as_str());
        },
    }
    proof { assert(sig@ =~= enc_opt_str(t@.signature)); }
    let mut pay: Vec<u8> = Vec::new();
    match &t.payload {
        None => { pay.push(0u8); },
        Some(p) => {
            pay.push(1u8);
            put_bytes(&mut pay, p.as_slice());
        },
    }
    proof { assert(pay@ =~= enc_opt_bytes(t@.payload)); }
    let tag: u32 = match t.kind {
        TransactionKind::Transfer => 0,
        TransactionKind::ContractDeploy => 1,
        TransactionKind::ContractCall => 2,
        TransactionKind::DefiAction => 3,
        TransactionKind::NftMint => 4,
        TransactionKind::NftTransfer => 5,
        TransactionKind::SystemReward => 6,
    };
    let mut kind: Vec<u8> = Vec::new();
    put_u32(&mut kind, tag);
    proof { assert(kind@ =~= enc_u32(kind_tag(t.kind))); }
    let acc = joined(sig, &pay);
    let acc = joined(field_u64(t.timestamp as u64), &acc);
    let acc = joined(field_u64(t.nonce), &acc);
    let acc = joined(field_u64(t.amount), &acc);
    let acc = joined(field_str(t.to.as_str()), &acc);
    let acc = joined(field_str(t.from.as_str()), &acc);
    let acc = joined(kind, &acc);
    let acc = joined(field_str(t.id.as_str()), &acc);
    crate::binary::append_bytes(out, acc.as_slice());
}

/// The bytes of a transaction.
pub fn encode_transaction(t: &Transaction) -> (r: Vec<u8>)
    ensures
        r@ == tx_bytes(t@),
        tx_fits(t@),
{
    let mut out: Vec<u8> = Vec::new();
    put_transaction(&mut out, t);
    proof { assert(out@ =~= tx_bytes(t@)); }
    out
}

/// Reads a tag byte at `p`.
fn get_tag(d: &[u8], p: usize) -> (r: Option<(u8, usize)>)
    ensures
        match r {
            Some((t, q)) => dec_tag(d@, p as int) == Some((t, q as int)),
            None => dec_tag(d@, p as int) is None,
        },
{
    if p < d.len() { Some((d[p], p + 1)) } else { None }
}

/// Reads a transaction at `p`.
pub fn get_transaction(d: &[u8], p: usize) -> (r: Option<(Transaction, usize)>)
    ensures
        match r {
            Some((t, q)) => parse_tx(d@, p as int) == Some((t@, q as int)),
            None => parse_tx(d@, p as int) is None,
        },
{
    let (id, p1) = match get_str(d, p) { Some(x) => x, None => { return None; } };
    let (tag, p2) = match get_u32(d, p1) { Some(x) => x, None => { return None; } };
    let kind = if tag == 0 {
        TransactionKind::Transfer
    } else if tag == 1 {
        TransactionKind::ContractDeploy
    } else if tag == 2 {
        TransactionKind::ContractCall
    } else if tag == 3 {
        TransactionKind::DefiAction
    } else if tag == 4 {
        TransactionKind::NftMint
    } else if tag == 5 {
        TransactionKind::NftTransfer
    } else if tag == 6 {
        TransactionKind::SystemReward
    } else {
        return None;
    };
    let (from, p3) = match get_str(d, p2) { Some(x) => x, None => { return None; } };
    let (to, p4) = match get_str(d, p3) { Some(x) => x, None => { return None; } };
    let (amount, p5) = match get_u64(d, p4) { Some(x) => x, None => { return None; } };
    let (nonce, p6) = match get_u64(d, p5) { Some(x) => x, None => { return None; } };
    let (ts, p7) = match get_u64(d, p6) { Some(x) => x, None => { return None; } };
    let (st, p8a) = match get_tag(d, p7) { Some(x) => x, None => { return None; } };
    let (signature, p8): (Option<String>, usize) = if st == 0 {
        (None, p8a)
    } else if st == 1 {
        match get_str(d, p8a) { Some((s, q)) => (Some(s), q), None => { return None; } }
    } else {
        return None;
    };
    let (pt, p9a) = match get_tag(d, p8) { Some(x) => x, None => { return None; } };
    let (payload, p9): (Option<Vec<u8>>, usize) = if pt == 0 {
        (None, p9a)
    } else if pt == 1 {
        match get_bytes(d, p9a) { Some((b, q)) => (Some(b), q), None => { return None; } }
    } else {
        return None;
    };
    Some((Transaction { id, kind, from, to, amount, nonce, timestamp: ts as i64, signature, payload }, p9))
}

/// The transaction whose bytes start `d`.
pub fn decode_transaction(d: &[u8]) -> (r: Option<Transaction>)
    ensures
        match parse_tx(d@, 0) {
            Some((t, _)) => r is Some && r->Some_0@ == t,
            None => r is None,
        },
{
    match get_transaction(d, 0) {
        Some((t, _)) => Some(t),
        None => None,
    }
}

/// The bytes of transactions one after another.
fn encode_transactions(ts: &Vec<Transaction>) -> (r: Vec<u8>)
    ensures
        r@ == txs_bytes(txs_view(ts@)),
        forall|j: int| 0 <= j < ts@.len() ==> tx_fits(#[trigger] txs_view(ts@)[j]),
{
    let ghost tv = txs_view(ts@);
    let mut out: Vec<u8> = Vec::new();
    let mut i: usize = 0;
    proof { assert(tv.subrange(0, 0) =~= Seq::<TransactionV>::empty()); }
    while i < ts.len()
        invariant
            i <= ts@.len(),
            tv == txs_view(ts@),
            tv.len() == ts@.len(),
            out@ == txs_bytes(tv.subrange(0, i as int)),
            forall|j: int| 0 <= j < i ==> tx_fits(#[trigger] tv[j]),
        decreases ts.len() - i,
    {
        put_transaction(&mut out, &ts[i]);
        proof {
            assert(tv[i as int] == ts@[i as int]@);
            lemma_txs_bytes_push(tv.subrange(0, i as int), tv[i as int]);
            assert(tv.subrange(0, i + 1) =~= tv.subrange(0, i as int).push(tv[i as int]));
        }
        i = i + 1;
    }
    proof { assert(tv.subrange(0, tv.len() as int) =~= tv); }
    out
}

/// The bytes of a block.
pub fn encode_block(b: &Block) -> (r: Vec<u8>)
    ensures
        r@ == block_bytes(b@),
        block_fits(b@),
{
    let mut version: Vec<u8> = Vec::new();
    version.push((b.version % 256) as u8);
    version.push((b.version / 256) as u8);
    proof { assert(version@ =~= enc_u16(b.version)); }
    let mut difficulty: Vec<u8> = Vec::new();
    put_u32(&mut difficulty, b.difficulty);
    proof { assert(difficulty@ =~= enc_u32(b.difficulty)); }
    let txs = encode_transactions(&b.transactions);
    let acc = field_str(b.merkle_root.as_str());
    let acc = joined(field_u64(b.nonce), &acc);
    let acc = joined(field_str(b.hash.as_str()), &acc);
    let acc = joined(field_str(b.previous_hash.as_str()), &acc);
    let acc = joined(txs, &acc);
    let acc = joined(field_u64(b.transactions.len() as u64), &acc);
    let acc = joined(field_str(b.miner.as_str()), &acc);
    let acc = joined(difficulty, &acc);
    let acc = joined(field_u64(b.timestamp as u64), &acc);
    let acc = joined(field_u64(b.index), &acc);
    let acc = joined(version, &acc);
    proof { assert(b@.transactions.len() == b.transactions@.len()); }
    acc
}

/// Appending a transaction appends its bytes.
pub proof fn lemma_txs_bytes_push(ts: Seq<TransactionV>, t: TransactionV)
    ensures
        txs_bytes(ts.push(t)) == txs_bytes(ts) + tx_bytes(t),
    decreases ts.len(),
{
    if ts.len() == 0 {
        assert(ts.push(t).drop_first() =~= Seq::<TransactionV>::empty());
        assert(ts.push(t)[0] == t);
        assert(txs_bytes(Seq::<TransactionV>::empty()) =~= Seq::<u8>::empty());
        assert(txs_bytes(ts.push(t)) =~= tx_bytes(t));
    } else {
        lemma_txs_bytes_push(ts.drop_first(), t);
        assert(ts.push(t).drop_first() =~= ts.drop_first().push(t));
        assert(txs_bytes(ts.push(t)) =~= tx_bytes(ts[0]) + (txs_bytes(ts.drop_first()) + tx_bytes(t)));
    }
}

/// Reads `n` transactions at `p`.
fn get_transactions(d: &[u8], p: usize, n: u64) -> (r: Option<(Vec<Transaction>, usize)>)
    ensures
        match r {
            Some((ts, q)) => parse_txs(d@, p as int, n as nat) == Some((txs_view(ts@), q as int)),
            None => parse_txs(d@, p as int, n as nat) is None,
        },
    decreases n,
{
    if n == 0 {
        let v: Vec<Transaction> = Vec::new();
        proof { assert(txs_view(v@) =~= Seq::<TransactionV>::empty()); }
        return Some((v, p));
    }
    let (t, q) = match get_transaction(d, p) { Some(x) => x, None => { return None; } };
    let (mut rest, r) = match get_transactions(d, q, n - 1) { Some(x) => x, None => { return None; } };
    let ghost tail = rest@;
    rest.insert(0, t);
    proof { assert(txs_view(rest@) =~= seq![t@] + txs_view(tail)); }
    Some((rest, r))
}

/// Reads a block at the start of `d`.
pub fn decode_block(d: &[u8]) -> (r: Option<Block>)
    ensures
        match parse_block(d@, 0) {
            Some((b, _)) => r is Some && r->Some_0@ == b,
            None => r is None,
        },
{
    if d.len() < 2 {
        return None;
    }
    let version: u16 = (d[0] as u16) + 256 * (d[1] as u16);
    let (index, p2) = match get_u64(d, 2) { Some(x) => x, None => { return None; } };
    let (ts, p3) = match get_u64(d, p2) { Some(x) => x, None => { return None; } };
    let (difficulty, p4) = match get_u32(d, p3) { Some(x) => x, None => { return None; } };
    let (miner, p5) = match get_str(d, p4) { Some(x) => x, None => { return None; } };
    let (n, p6) = match get_u64(d, p5) { Some(x) => x, None => { return None; } };
    let (transactions, q) = match get_transactions(d, p6, n) { Some(x) => x, None => { return None; } };
    let (previous_hash, p8) = match get_str(d, q) { Some(x) => x, None => { return None; } };
    let (hash, p9) = match get_str(d, p8) { Some(x) => x, None => { return None; } };
    let (nonce, p10) = match get_u64(d, p9) { Some(x) => x, None => { return None; } };
    let (merkle_root, _) = match get_str(d, p10) { Some(x) => x, None => { return None; } };
    Some(Block { version, index, timestamp: ts as i64, difficulty, miner, transactions, previous_hash, hash, nonce, merkle_root })
}

} // verus!
