//! Blocks: the genesis block, new blocks, their Merkle root and hash,
//! mining, and the block's own integrity check.
//!
//! The hash of a block is the SHA-256 (lowercase hex) of, in order: version,
//! height, timestamp, difficulty (each in decimal), miner, the transaction ids
//! joined by commas, the previous hash, the nonce (decimal) and the Merkle root.

use vstd::prelude::*;
use vstd::utf8::encode_utf8;
use crate::binary::append_bytes;
use crate::chain_error::{CoreError, CoreErrorV};
use crate::hash::{sha256_hex, spec_sha256_hex};
use crate::merkle::{calculate_merkle_root as merkle_of, merkle_root_spec, empty_root};
use crate::pow::{meets_difficulty, meets_spec};
use crate::text::{dec_u64, dec_i64, dec_nat, dec_int, str_eq};
use crate::transaction::{Transaction, TransactionV, TransactionKind, tx_id_spec, tx_check, unit_result, copy_transaction, system_address, SYSTEM_ADDRESS, unix_now};

verus! {

/// A block.
#[derive(Debug, Clone, PartialEq, Eq)]
pub struct Block {
    /// Format version.
    pub version: u16,
    /// Height.
    pub index: u64,
    /// Creation time (seconds).
    pub timestamp: i64,
    /// Difficulty it was mined at.
    pub difficulty: u32,
    /// Miner address.
    pub miner: String,
    /// Transactions.
    pub transactions: Vec<Transaction>,
    /// Hash of the previous block.
    pub previous_hash: String,
    /// Hash of this block.
    pub hash: String,
    /// Proof-of-work nonce.
    pub nonce: u64,
    /// Merkle root of the transaction ids.
    pub merkle_root: String,
}

/// A block, viewed.
pub struct BlockV {
    pub version: u16,
    pub index: u64,
    pub timestamp: i64,
    pub difficulty: u32,
    pub miner: Seq<char>,
    pub transactions: Seq<TransactionV>,
    pub previous_hash: Seq<char>,
    pub hash: Seq<char>,
    pub nonce: u64,
    pub merkle_root: Seq<char>,
}

/// Transactions, viewed.
pub open spec fn txs_view(v: Seq<Transaction>) -> Seq<TransactionV> {
    v.map_values(|t: Transaction| t@)
}

impl View for Block {
    type V = BlockV;

    open spec fn view(&self) -> BlockV {
        BlockV {
            version: self.version,
            index: self.index,
            timestamp: self.timestamp,
            difficulty: self.difficulty,
            miner: self.miner@,
            transactions: txs_view(self.transactions@),
            previous_hash: self.previous_hash@,
            hash: self.hash@,
            nonce: self.nonce,
            merkle_root: self.merkle_root@,
        }
    }
}

/// The id a transaction contributes to its block: its own, or the computed
/// one while it has none.
pub open spec fn effective_id(t: TransactionV) -> Seq<char> {
    if t.id.len() == 0 { tx_id_spec(t) } else { t.id }
}

/// The ids of the transactions.
pub open spec fn leaf_ids(txs: Seq<TransactionV>) -> Seq<Seq<char>> {
    txs.map_values(|t: TransactionV| effective_id(t))
}

/// The ids joined by commas.
pub open spec fn join_commas(s: Seq<Seq<char>>) -> Seq<char>
    decreases s.len(),
{
    if s.len() == 0 {
        Seq::empty()
    } else if s.len() == 1 {
        s[0]
    } else {
        join_commas(s.drop_last()) + ","@ + s.last()
    }
}

/// The bytes a block's hash is taken of, for a nonce.
pub open spec fn hash_input(b: BlockV, nonce: u64) -> Seq<u8> {
    encode_utf8(dec_nat(b.version as nat)) + encode_utf8(dec_nat(b.index as nat)) + encode_utf8(dec_int(b.timestamp as int))
        + encode_utf8(dec_nat(b.difficulty as nat)) + encode_utf8(b.miner) + encode_utf8(join_commas(leaf_ids(b.transactions)))
        + encode_utf8(b.previous_hash) + encode_utf8(dec_nat(nonce as nat)) + encode_utf8(b.merkle_root)
}

/// The hash of a block with a given nonce.
pub open spec fn block_hash_spec(b: BlockV, nonce: u64) -> Seq<char> {
    spec_sha256_hex(hash_input(b, nonce))
}

/// The genesis block, before its hash.
pub open spec fn genesis_body() -> BlockV {
    BlockV {
        version: 1,
        index: 0,
        timestamp: 0,
        difficulty: 0,
        miner: system_address(),
        transactions: Seq::empty(),
        previous_hash: "0"@,
        hash: Seq::empty(),
        nonce: 0,
        merkle_root: empty_root(),
    }
}

/// The genesis block.
pub open spec fn genesis_spec() -> BlockV {
    BlockV { hash: block_hash_spec(genesis_body(), 0), ..genesis_body() }
}

/// The first error of the transactions' checks, in order.
pub open spec fn first_tx_error(txs: Seq<TransactionV>, n: int) -> Result<(), CoreErrorV>
    decreases n,
{
    if n <= 0 {
        Ok(())
    } else {
        match first_tx_error(txs, n - 1) {
            Err(e) => Err(e),
            Ok(_) => tx_check(txs[n - 1]),
        }
    }
}

/// The integrity check of a block.
pub open spec fn integrity_spec(b: BlockV, skip_pow: bool) -> Result<(), CoreErrorV> {
    if b.merkle_root != merkle_root_spec(leaf_ids(b.transactions)) {
        Err(CoreErrorV::InvalidMerkleRoot { index: b.index })
    } else if b.hash != block_hash_spec(b, b.nonce) {
        Err(CoreErrorV::InvalidBlockHash { index: b.index })
    } else if !skip_pow && !meets_spec(b.hash, b.difficulty) {
        Err(CoreErrorV::InvalidProofOfWork { index: b.index })
    } else {
        first_tx_error(b.transactions, b.transactions.len() as int)
    }
}

/// Once a prefix has an error, longer prefixes have the same.
pub proof fn lemma_first_tx_error_stops(txs: Seq<TransactionV>, k: int, n: int)
    requires
        0 <= k <= n,
        first_tx_error(txs, k) is Err,
    ensures
        first_tx_error(txs, n) == first_tx_error(txs, k),
    decreases n - k,
{
    if n > k {
        lemma_first_tx_error_stops(txs, k, n - 1);
    }
}

/// A copy of a list of transactions.
pub fn copy_transactions(v: &Vec<Transaction>) -> (r: Vec<Transaction>)
    ensures
        txs_view(r@) == txs_view(v@),
{
    let mut out: Vec<Transaction> = Vec::new();
    let mut i: usize = 0;
    while i < v.len()
        invariant
            i <= v@.len(),
            txs_view(out@) == txs_view(v@).subrange(0, i as int),
        decreases v.len() - i,
    {
        let ghost before = out@;
        out.push(copy_transaction(&v[i]));
        proof {
            assert(txs_view(out@) =~= txs_view(before).push(v@[i as int]@));
            assert(txs_view(v@).subrange(0, i + 1) =~= txs_view(v@).subrange(0, i as int).push(v@[i as int]@));
        }
        i = i + 1;
    }
    proof { assert(txs_view(v@).subrange(0, i as int) =~= txs_view(v@)); }
    out
}

/// A copy of a block.
pub fn copy_block(b: &Block) -> (r: Block)
    ensures
        r@ == b@,
{
    Block {
        version: b.version,
        index: b.index,
        timestamp: b.timestamp,
        difficulty: b.difficulty,
        miner: b.miner.clone(),
        transactions: copy_transactions(&b.transactions),
        previous_hash: b.previous_hash.clone(),
        hash: b.hash.clone(),
        nonce: b.nonce,
        merkle_root: b.merkle_root.clone(),
    }
}

/// The id of a transaction as its block records it.
fn effective_tx_id(t: &Transaction) -> (r: String)
    ensures
        r@ == effective_id(t@),
{
    if t.id.as_str().is_empty() {
        t.calculate_id()
    } else {
        t.id.clone()
    }
}

/// The ids of the transactions.
fn tx_ids(transactions: &[Transaction]) -> (r: Vec<String>)
    ensures
        r@.map_values(|h: String| h@) == leaf_ids(txs_view(transactions@)),
{
    let ghost tv = txs_view(transactions@);
    let mut out: Vec<String> = Vec::new();
    let mut i: usize = 0;
    while i < transactions.len()
        invariant
            i <= transactions@.len(),
            tv == txs_view(transactions@),
            out@.map_values(|h: String| h@) == leaf_ids(tv).subrange(0, i as int),
        decreases transactions.len() - i,
    {
        let ghost before = out@;
        let id = effective_tx_id(&transactions[i]);
        out.push(id);
        proof {
            assert(out@.map_values(|h: String| h@) =~= before.map_values(|h: String| h@).push(effective_id(tv[i as int])));
            assert(leaf_ids(tv).subrange(0, i + 1) =~= leaf_ids(tv).subrange(0, i as int).push(effective_id(tv[i as int])));
        }
        i = i + 1;
    }
    proof { assert(leaf_ids(tv).subrange(0, i as int) =~= leaf_ids(tv)); }
    out
}

/// The ids joined by commas.
fn join_ids(ids: &Vec<String>) -> (r: String)
    ensures
        r@ == join_commas(ids@.map_values(|h: String| h@)),
{
    let ghost iv = ids@.map_values(|h: String| h@);
    let mut s = String::new();
    let mut i: usize = 0;
    proof { assert(iv.subrange(0, 0) =~= Seq::<Seq<char>>::empty()); }
    while i < ids.len()
        invariant
            i <= ids@.len(),
            iv == ids@.map_values(|h: String| h@),
            s@ == join_commas(iv.subrange(0, i as int)),
        decreases ids.len() - i,
    {
        if i > 0 {
            s.append(",");
        }
        s.append(ids[i].as_str());
        proof {
            let next = iv.subrange(0, i + 1);
            assert(next.drop_last() =~= iv.subrange(0, i as int));
            if i == 0 {
                assert(s@ =~= next[0]);
            }
        }
        i = i + 1;
    }
    proof { assert(iv.subrange(0, i as int) =~= iv); }
    s
}

/// Whether two blocks are equal field by field.
pub fn block_eq(a: &Block, b: &Block) -> (r: bool)
    ensures
        r == (a@ == b@),
{
    if a.version != b.version || a.index != b.index || a.timestamp != b.timestamp || a.difficulty != b.difficulty || a.nonce != b.nonce {
        return false;
    }
    if !str_eq(a.miner.as_str(), b.miner.as_str()) || !str_eq(a.previous_hash.as_str(), b.previous_hash.as_str())
        || !str_eq(a.hash.as_str(), b.hash.as_str()) || !str_eq(a.merkle_root.as_str(), b.merkle_root.as_str()) {
        return false;
    }
    if a.transactions.len() != b.transactions.len() {
        proof { assert(a@.transactions.len() != b@.transactions.len()); }
        return false;
    }
    let mut i: usize = 0;
    while i < a.transactions.len()
        invariant
            i <= a.transactions@.len(),
            a.transactions@.len() == b.transactions@.len(),
            forall|j: int| 0 <= j < i ==> #[trigger] a@.transactions[j] == b@.transactions[j],
        decreases a.transactions.len() - i,
    {
        if !tx_eq(&a.transactions[i], &b.transactions[i]) {
            proof { assert(a@.transactions[i as int] != b@.transactions[i as int]); }
            return false;
        }
        i = i + 1;
    }
    proof { assert(a@.transactions =~= b@.transactions); }
    true
}

/// Whether two transactions are equal field by field.
pub fn tx_eq(a: &Transaction, b: &Transaction) -> (r: bool)
    ensures
        r == (a@ == b@),
{
    if a.amount != b.amount || a.nonce != b.nonce || a.timestamp != b.timestamp || a.kind != b.kind {
        return false;
    }
    if !str_eq(a.id.as_str(), b.id.as_str()) || !str_eq(a.from.as_str(), b.from.as_str()) || !str_eq(a.to.as_str(), b.to.as_str()) {
        return false;
    }
    let sig_eq = match (&a.signature, &b.signature) {
        (Some(x), Some(y)) => str_eq(x.as_str(), y.as_str()),
        (None, None) => true,
        _ => false,
    };
    if !sig_eq {
        return false;
    }
    match (&a.payload, &b.payload) {
        (Some(x), Some(y)) => bytes_eq(x, y),
        (None, None) => true,
        _ => false,
    }
}

/// Whether two byte strings are equal.
fn bytes_eq(a: &Vec<u8>, b: &Vec<u8>) -> (r: bool)
    ensures
        r == (a@ == b@),
{
    if a.len() != b.len() {
        return false;
    }
    let mut i: usize = 0;
    while i < a.len()
        invariant
            i <= a@.len(),
            a@.len() == b@.len(),
            forall|j: int| 0 <= j < i ==> a@[j] == b@[j],
        decreases a.len() - i,
    {
        if a[i] != b[i] {
            return false;
        }
        i = i + 1;
    }
    proof { assert(a@ =~= b@); }
    true
}

impl Block {
    /// The genesis block: fixed content, so every node builds the same one.
    pub fn genesis() -> (r: Self)
        ensures
            r@ == genesis_spec(),
    {
        let empty: Vec<String> = Vec::new();
        let mut block = Block {
            version: 1,
            index: 0,
            timestamp: 0,
            difficulty: 0,
            miner: String::from_str(SYSTEM_ADDRESS),
            transactions: Vec::new(),
            previous_hash: String::from_str("0"),
            hash: String::new(),
            nonce: 0,
            merkle_root: merkle_of(empty.as_slice()),
        };
        proof {
            assert(empty@.map_values(|h: String| h@) =~= Seq::<Seq<char>>::empty());
            assert(txs_view(block.transactions@) =~= Seq::<TransactionV>::empty());
        }
        block.hash = block.calculate_hash();
        block
    }

    /// A block to mine, created now, on top of `previous_hash`.
    pub fn new(index: u64, transactions: Vec<Transaction>, previous_hash: &str, difficulty: u32, miner: &str) -> (r: Self)
        ensures
            r.version == 1,
            r.index == index,
            r.difficulty == difficulty,
            r.miner@ == miner@,
            r@.transactions == txs_view(transactions@),
            r.previous_hash@ == previous_hash@,
            r.nonce == 0,
            r.merkle_root@ == merkle_root_spec(leaf_ids(txs_view(transactions@))),
            r.hash@ == block_hash_spec(r@, 0),
    {
        let merkle_root = Self::calculate_merkle_root(transactions.as_slice());
        let mut block = Block {
            version: 1,
            index,
            timestamp: unix_now(),
            difficulty,
            miner: String::from_str(miner),
            transactions,
            previous_hash: String::from_str(previous_hash),
            hash: String::new(),
            nonce: 0,
            merkle_root,
        };
        block.hash = block.calculate_hash();
        block
    }

    /// The Merkle root of the transactions' ids.
    pub fn calculate_merkle_root(transactions: &[Transaction]) -> (r: String)
        ensures
            r@ == merkle_root_spec(leaf_ids(txs_view(transactions@))),
    {
        let ids = tx_ids(transactions);
        merkle_of(ids.as_slice())
    }

    /// The block's hash with the given nonce.
    pub fn calculate_hash_with_nonce(&self, nonce: u64) -> (r: String)
        ensures
            r@ == block_hash_spec(self@, nonce),
    {
        let ids = tx_ids(self.transactions.as_slice());
        let joined = join_ids(&ids);
        let mut bytes: Vec<u8> = Vec::new();
        let v = dec_u64(self.version as u64);
        append_bytes(&mut bytes, v.as_str().as_bytes());
        let i = dec_u64(self.index);
        append_bytes(&mut bytes, i.as_str().as_bytes());
        let t = dec_i64(self.timestamp);
        append_bytes(&mut bytes, t.as_str().as_bytes());
        let d = dec_u64(self.difficulty as u64);
        append_bytes(&mut bytes, d.as_str().as_bytes());
        append_bytes(&mut bytes, self.miner.as_str().as_bytes());
        append_bytes(&mut bytes, joined.as_str().as_bytes());
        append_bytes(&mut bytes, self.previous_hash.as_str().as_bytes());
        let n = dec_u64(nonce);
        append_bytes(&mut bytes, n.as_str().as_bytes());
        append_bytes(&mut bytes, self.merkle_root.as_str().as_bytes());
        proof { assert(bytes@ =~= hash_input(self@, nonce)); }
        sha256_hex(bytes.as_slice())
    }

    /// The block's hash with its own nonce.
    pub fn calculate_hash(&self) -> (r: String)
        ensures
            r@ == block_hash_spec(self@, self.nonce),
    {
        self.calculate_hash_with_nonce(self.nonce)
    }

    /// Proof of work: tries nonces upward from the current one and keeps the
    /// first whose hash meets `difficulty`. Should none up to `u64::MAX` meet
    /// it, the nonce stays at `u64::MAX` and the hash is left as it was.
    pub fn mine(&mut self, difficulty: u32)
        ensures
            final(self)@ == (BlockV { nonce: final(self).nonce, hash: final(self)@.hash, ..old(self)@ }),
            old(self).nonce <= final(self).nonce,
            forall|n: u64| old(self).nonce <= n < final(self).nonce ==> !meets_spec(#[trigger] block_hash_spec(old(self)@, n), difficulty),
            meets_spec(block_hash_spec(old(self)@, final(self).nonce), difficulty) ==> final(self)@.hash == block_hash_spec(old(self)@, final(self).nonce),
            !meets_spec(block_hash_spec(old(self)@, final(self).nonce), difficulty) ==> final(self).nonce == u64::MAX && final(self)@.hash == old(self)@.hash,
    {
        loop
            invariant
                self@ == (BlockV { nonce: self.nonce, ..old(self)@ }),
                old(self).nonce <= self.nonce,
                forall|n: u64| old(self).nonce <= n < self.nonce ==> !meets_spec(#[trigger] block_hash_spec(old(self)@, n), difficulty),
            decreases u64::MAX - self.nonce,
        {
            let candidate = self.calculate_hash_with_nonce(self.nonce);
            proof { assert(block_hash_spec(self@, self.nonce) == block_hash_spec(old(self)@, self.nonce)); }
            if meets_difficulty(candidate.as_str(), difficulty) {
                self.hash = candidate;
                return;
            }
            if self.nonce == u64::MAX {
                return;
            }
            self.nonce = self.nonce + 1;
        }
    }

    /// Checks the Merkle root, the hash, the proof of work (unless skipped)
    /// and each transaction, in that order.
    pub fn validate_integrity(&self, skip_pow: bool) -> (r: Result<(), CoreError>)
        ensures
            unit_result(r) == integrity_spec(self@, skip_pow),
    {
        let expected_merkle_root = Self::calculate_merkle_root(self.transactions.as_slice());
        if !str_eq(self.merkle_root.as_str(), expected_merkle_root.as_str()) {
            return Err(CoreError::InvalidMerkleRoot { index: self.index });
        }
        let expected_hash = self.calculate_hash();
        if !str_eq(self.hash.as_str(), expected_hash.as_str()) {
            return Err(CoreError::InvalidBlockHash { index: self.index });
        }
        if !skip_pow && !meets_difficulty(self.hash.as_str(), self.difficulty) {
            return Err(CoreError::InvalidProofOfWork { index: self.index });
        }
        let ghost tv = self@.transactions;
        let mut i: usize = 0;
        while i < self.transactions.len()
            invariant
                i <= self.transactions@.len(),
                tv == self@.transactions,
                self@.merkle_root == merkle_root_spec(leaf_ids(self@.transactions)),
                self@.hash == block_hash_spec(self@, self.nonce),
                skip_pow || meets_spec(self@.hash, self.difficulty),
                first_tx_error(tv, i as int) == Ok::<(), CoreErrorV>(()),
            decreases self.transactions.len() - i,
        {
            match self.transactions[i].validate_basic() {
                Err(e) => {
                    proof {
                        assert(tv[i as int] == self.transactions@[i as int]@);
                        lemma_first_tx_error_stops(tv, i + 1, tv.len() as int);
                    }
                    return Err(e);
                },
                Ok(()) => {
                    proof { assert(tv[i as int] == self.transactions@[i as int]@); }
                },
            }
            i = i + 1;
        }
        Ok(())
    }
}

} // verus!
