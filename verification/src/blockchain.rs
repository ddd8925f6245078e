//! The blockchain: the main chain, the pending pool, contract state and the
//! lending pool that confirmed blocks move forward.

use vstd::prelude::*;
use vstd::utf8::{valid_utf8, decode_utf8, pop_first_scalar, length_of_first_scalar};
use crate::block::{Block, BlockV, txs_view, copy_block, block_eq};
use crate::chain_error::{CoreError, CoreErrorV};
use crate::defi::{LendingConfig, LendingPool};
use crate::keyed::{KeyedMap, EntrySeq, viewed, key_index, keys_unique, put_entry, lemma_viewed_keys, lemma_same_keys, lemma_key_index};
use crate::ledger::{ChainV, Balances, utf8_error_text, adjust_spec, expected_difficulty, events_of, state_of, contract_source,
    contract_run, program_of, ops_view, defi_parse, defi_decode, defi_apply, defi_validation, payload_validation, is_contract_kind,
    apply_to_balances, fold_balances, apply_all, chain_balances, balances_spec, add_tx_check, lemma_fold_stops,
    with_events, contract_transition, defi_transition, tx_transition, transitions, lemma_transitions_stop, lemma_transitions_frame,
    refresh_spec, next_block_check, commit_spec, append_spec, confirm_spec, unconfirmed, block_tx_ids,
    block_link_check, scan_chain, scan_next, chain_check, lemma_scan_stops};
use crate::block::{leaf_ids, block_hash_spec, copy_transactions};
use crate::merkle::merkle_root_spec;
use crate::pow::meets_spec;
use crate::transaction::{TransactionKind as Kind, system_address, tx_id_spec, copy_transaction};
use crate::bytecode::Opcode;
use crate::compiler::{compile, compile_result_view};
use crate::defi::{DefiError, DefiErrorV};
use crate::defi_payload::{DefiAction, DefiPayload};
use crate::runtime::{Runtime, VmState, lemma_run_view, DEFAULT_STEP_LIMIT};
use crate::transaction::TransactionKind;
use crate::block::genesis_spec;
use crate::defi::{PoolView, InterestRateModel};
use crate::text::{is_blank, is_blank_seq, str_eq};
use crate::transaction::{Transaction, TransactionV, unit_result};

verus! {

/// Blocks between two difficulty adjustments, by default.
pub const DEFAULT_DIFFICULTY_ADJUSTMENT_INTERVAL: u64 = 10;

/// The chain id new chains get.
pub const DEFAULT_CHAIN_ID: &'static str = "rustchain-lab-dev";

/// A blockchain: its main chain, pending pool, known peers and the state
/// that confirmed transactions build.
pub struct Blockchain {
    /// Identifies the deployment.
    pub chain_id: String,
    /// The main chain.
    pub chain: Vec<Block>,
    /// Transactions waiting for a block.
    pub pending_transactions: Vec<Transaction>,
    /// Known peers.
    pub peers: Vec<String>,
    /// Difficulty the next block is expected to have.
    pub difficulty: u32,
    /// Difficulty of the first block after genesis.
    pub(crate) initial_difficulty: u32,
    /// Reward for mining a block.
    pub mining_reward: u64,
    /// Planned seconds per block.
    pub target_block_time_secs: u64,
    /// Blocks between difficulty adjustments.
    pub difficulty_adjustment_interval: u64,
    /// Contract state variables, by contract address.
    pub contract_states: KeyedMap<KeyedMap<i64>>,
    /// Contract events, by contract address.
    pub contract_events: KeyedMap<Vec<String>>,
    /// The lending pool.
    pub lending_pool: LendingPool,
}

/// Strings, viewed.
pub open spec fn texts_view(v: Seq<String>) -> Seq<Seq<char>> {
    v.map_values(|s: String| s@)
}

/// Contract events, viewed.
pub open spec fn events_view(s: EntrySeq<Vec<String>>) -> Seq<(Seq<char>, Seq<Seq<char>>)> {
    s.map_values(|e: (Seq<char>, Vec<String>)| (e.0, texts_view(e.1@)))
}

impl View for Blockchain {
    type V = ChainV;

    closed spec fn view(&self) -> ChainV {
        ChainV {
            chain_id: self.chain_id@,
            chain: self.chain@.map_values(|b: Block| b@),
            pending: txs_view(self.pending_transactions@),
            peers: texts_view(self.peers@),
            difficulty: self.difficulty,
            initial_difficulty: self.initial_difficulty,
            mining_reward: self.mining_reward,
            target_block_time_secs: self.target_block_time_secs,
            difficulty_adjustment_interval: self.difficulty_adjustment_interval,
            states: viewed(self.contract_states.seq()),
            events: events_view(self.contract_events.seq()),
            pool: self.lending_pool@,
        }
    }
}

/// Reads bytes as UTF-8 text, through `std::str::from_utf8`: the text when
/// the bytes are valid UTF-8, else the standard library's error text, which
/// is named and not spelled out.
#[verifier::external_body]
fn utf8_text(raw: &[u8]) -> (r: Result<String, String>)
    ensures
        match r {
            Ok(s) => valid_utf8(raw@) && s@ == decode_utf8(raw@),
            Err(m) => !valid_utf8(raw@) && m@ == utf8_error_text(raw@),
        },
{
    match std::str::from_utf8(raw) {
        Ok(s) => Ok(s.to_string()),
        Err(e) => Err(e.to_string()),
    }
}

/// The lending parameters a chain gets by default.
pub open spec fn default_lending_config() -> LendingConfig {
    LendingConfig {
        min_collateral_ratio_bps: 15_000,
        liquidation_ratio_bps: 12_000,
        liquidation_bonus_bps: 800,
        interest_rate_model: InterestRateModel { base_rate_bps: 500, utilization_slope_bps: 1_500 },
    }
}

/// A new chain: the genesis block alone, nothing pending, no contract state
/// and an empty pool last accrued at time zero.
pub open spec fn fresh_chain(difficulty: u32, mining_reward: u64, config: LendingConfig) -> ChainV {
    ChainV {
        chain_id: DEFAULT_CHAIN_ID@,
        chain: seq![genesis_spec()],
        pending: Seq::empty(),
        peers: Seq::empty(),
        difficulty,
        initial_difficulty: difficulty,
        mining_reward,
        target_block_time_secs: 10,
        difficulty_adjustment_interval: DEFAULT_DIFFICULTY_ADJUSTMENT_INTERVAL,
        states: Seq::empty(),
        events: Seq::empty(),
        pool: PoolView { config, entries: Seq::empty(), total_collateral: 0, total_debt: 0, last_accrual_ts: 0 },
    }
}

/// The latest block's height leaves room for `k` more.
pub open spec fn tip_below(v: ChainV, k: int) -> bool {
    v.chain.len() > 0 ==> v.chain.last().index + k <= u64::MAX
}

/// A copy of a list of strings.
pub fn copy_texts(v: &Vec<String>) -> (r: Vec<String>)
    ensures
        texts_view(r@) == texts_view(v@),
{
    let mut out: Vec<String> = Vec::new();
    let mut i: usize = 0;
    while i < v.len()
        invariant
            i <= v@.len(),
            texts_view(out@) == texts_view(v@).subrange(0, i as int),
        decreases v.len() - i,
    {
        let ghost before = out@;
        out.push(v[i].clone());
        proof {
            assert(texts_view(out@) =~= texts_view(before).push(v@[i as int]@));
            assert(texts_view(v@).subrange(0, i + 1) =~= texts_view(v@).subrange(0, i as int).push(v@[i as int]@));
        }
        i = i + 1;
    }
    proof { assert(texts_view(v@).subrange(0, v@.len() as int) =~= texts_view(v@)); }
    out
}

/// Decoded text is never longer than its bytes.
proof fn lemma_decoded_len(b: Seq<u8>)
    requires
        valid_utf8(b),
    ensures
        decode_utf8(b).len() <= b.len(),
    decreases b.len(),
{
    if b.len() > 0 {
        let rest = pop_first_scalar(b);
        assert(1 <= length_of_first_scalar(b) <= b.len());
        assert(rest.len() == b.len() - length_of_first_scalar(b));
        lemma_decoded_len(rest);
    }
}

/// Whether a transaction is a lending action, whose amount counts
/// collateral or debt and moves no balance.
fn is_internal_action(transaction: &Transaction) -> (r: bool)
    ensures
        r == (transaction.kind == TransactionKind::DefiAction),
{
    matches!(transaction.kind, TransactionKind::DefiAction)
}

/// The contract source a transaction carries (`None` when absent or blank).
fn decode_contract_source(transaction: &Transaction) -> (r: Result<Option<String>, CoreError>)
    ensures
        match contract_source(transaction@) {
            Ok(None) => r is Ok && r->Ok_0 is None,
            Ok(Some(src)) => r is Ok && r->Ok_0 is Some && r->Ok_0->Some_0@ == src,
            Err(e) => r is Err && r->Err_0@ == e,
        },
{
    match &transaction.payload {
        None => Ok(None),
        Some(raw) => {
            if raw.len() == 0 {
                return Ok(None);
            }
            match utf8_text(raw.as_slice()) {
                Err(reason) => Err(CoreError::ContractPayloadEncodingInvalid { tx_id: transaction.id.clone(), reason }),
                Ok(source) => if is_blank(source.as_str()) {
                    Ok(None)
                } else {
                    Ok(Some(source))
                },
            }
        },
    }
}

/// The lending payload of a transaction, read.
fn decode_defi_payload(transaction: &Transaction) -> (r: Result<DefiPayload, CoreError>)
    ensures
        match defi_parse(transaction@) {
            Ok(p) => r is Ok && r->Ok_0@ == p,
            Err(e) => r is Err && r->Err_0@ == e,
        },
{
    match &transaction.payload {
        None => Err(CoreError::DefiPayloadInvalid { tx_id: transaction.id.clone(), reason: String::from_str("缺少 DeFi 载荷") }),
        Some(raw) => match DefiPayload::decode(raw.as_slice()) {
            Ok(p) => Ok(p),
            Err(e) => Err(CoreError::DefiPayloadInvalid { tx_id: transaction.id.clone(), reason: e.message() }),
        },
    }
}

/// The lending payload of a transaction, read and checked.
fn checked_defi_payload(transaction: &Transaction) -> (r: Result<DefiPayload, CoreError>)
    ensures
        match defi_decode(transaction@) {
            Ok(p) => r is Ok && r->Ok_0@ == p,
            Err(e) => r is Err && r->Err_0@ == e,
        },
{
    let payload = match decode_defi_payload(transaction) {
        Err(e) => { return Err(e); },
        Ok(p) => p,
    };
    match payload.validate() {
        Err(e) => Err(CoreError::DefiPayloadInvalid { tx_id: transaction.id.clone(), reason: e.message() }),
        Ok(_) => Ok(payload),
    }
}

/// A lending result with its error viewed.
pub open spec fn defi_unit(r: Result<(), DefiError>) -> Result<(), DefiErrorV> {
    match r {
        Ok(_) => Ok(()),
        Err(e) => Err(e@),
    }
}

/// Runs a lending payload on `pool` at time `now_ts`.
fn apply_defi_action(pool: &mut LendingPool, payload: &DefiPayload, now_ts: i64) -> (r: Result<(), DefiError>)
    ensures
        (final(pool)@, defi_unit(r)) == defi_apply(old(pool)@, payload@, now_ts),
{
    match payload.action {
        DefiAction::DepositCollateral => match pool.deposit_collateral(payload.owner.as_str(), payload.amount) {
            Ok(_) => Ok(()),
            Err(e) => Err(e),
        },
        DefiAction::Borrow => match pool.borrow(payload.owner.as_str(), payload.amount, now_ts) {
            Ok(_) => Ok(()),
            Err(e) => Err(e),
        },
        DefiAction::Repay => match pool.repay(payload.owner.as_str(), payload.amount, now_ts) {
            Ok(_) => Ok(()),
            Err(e) => Err(e),
        },
        DefiAction::WithdrawCollateral => match pool.withdraw_collateral(payload.owner.as_str(), payload.amount, now_ts) {
            Ok(_) => Ok(()),
            Err(e) => Err(e),
        },
        DefiAction::Liquidate => match pool.liquidate(payload.owner.as_str(), payload.amount, now_ts) {
            Ok(_) => Ok(()),
            Err(e) => Err(e),
        },
    }
}

/// Adds `new` events after those of the contract at `addr`.
fn append_events(events: &mut KeyedMap<Vec<String>>, addr: &String, new: &[String])
    ensures
        events_view(final(events).seq()) == put_entry(
            events_view(old(events).seq()),
            addr@,
            events_of(events_view(old(events).seq()), addr@) + texts_view(new@),
        ),
{
    proof {
        use_type_invariant(&*events);
        events.lemma_unique();
        lemma_same_keys(events.seq(), events_view(events.seq()));
    }
    let ghost ev = events_view(events.seq());
    let mut list: Vec<String> = match events.index_of(addr.as_str()) {
        Some(i) => {
            proof { lemma_key_index(ev, addr@, i as int); }
            copy_texts(events.value_at(i))
        },
        None => Vec::new(),
    };
    let ghost base = events_of(ev, addr@);
    proof { assert(texts_view(list@) =~= base); }
    let mut j: usize = 0;
    while j < new.len()
        invariant
            j <= new@.len(),
            texts_view(list@) == base + texts_view(new@).subrange(0, j as int),
        decreases new.len() - j,
    {
        let ghost before = list@;
        list.push(new[j].clone());
        proof {
            assert(texts_view(list@) =~= texts_view(before).push(new@[j as int]@));
            assert(texts_view(new@).subrange(0, j + 1) =~= texts_view(new@).subrange(0, j as int).push(new@[j as int]@));
        }
        j = j + 1;
    }
    proof { assert(texts_view(new@).subrange(0, new@.len() as int) =~= texts_view(new@)); }
    let ghost old_seq = events.seq();
    let ghost lv = list@;
    events.insert(addr.clone(), list);
    proof {
        match key_index(old_seq, addr@) {
            Some(i) => {
                assert(events_view(events.seq()) =~= ev.update(i, (addr@, texts_view(lv))));
            },
            None => {
                assert(events_view(events.seq()) =~= ev.push((addr@, texts_view(lv))));
            },
        }
    }
}

/// Whether the blocks before the last all leave room for a next height.
pub open spec fn heights_fit(v: ChainV) -> bool {
    forall|i: int| 0 <= i < v.chain.len() - 1 ==> #[trigger] v.chain[i].index < u64::MAX
}

/// Whether `t` is the reward of a block mined by `miner`.
pub open spec fn is_reward(t: TransactionV, miner: Seq<char>, amount: u64) -> bool {
    &&& t.kind == Kind::SystemReward
    &&& t.from == system_address()
    &&& t.to == miner
    &&& t.amount == amount
    &&& t.nonce == 0
    &&& t.signature is None
    &&& t.payload is None
    &&& t.id == tx_id_spec(t)
}

/// Whether `b` is a block that `miner` built on the latest block of `v` at
/// difficulty `d` and then mined: the pending transactions followed by the
/// reward, the first nonce from zero whose hash meets `d` (or the last nonce,
/// with the unmined hash, when none does). Its timestamp is the clock's.
pub open spec fn mined_candidate(v: ChainV, miner: Seq<char>, d: u32, b: BlockV) -> bool {
    let last = v.chain.last();
    &&& b.version == 1
    &&& b.index == last.index + 1
    &&& b.difficulty == d
    &&& b.miner == miner
    &&& b.previous_hash == last.hash
    &&& b.transactions.len() == v.pending.len() + 1
    &&& b.transactions.drop_last() == v.pending
    &&& is_reward(b.transactions.last(), miner, v.mining_reward)
    &&& b.merkle_root == merkle_root_spec(leaf_ids(b.transactions))
    &&& forall|n: u64| n < b.nonce ==> !meets_spec(#[trigger] block_hash_spec(b, n), d)
    &&& if meets_spec(block_hash_spec(b, b.nonce), d) {
        b.hash == block_hash_spec(b, b.nonce)
    } else {
        b.nonce == u64::MAX && b.hash == block_hash_spec(b, 0)
    }
}

/// Whether the chain `f` and the result `r` are what committing `b` to `v` gives.
pub open spec fn committed(v: ChainV, b: BlockV, f: ChainV, r: Result<Block, CoreError>) -> bool {
    let (w, res) = commit_spec(v, b);
    &&& f == w
    &&& match res {
        Ok(_) => r is Ok && r->Ok_0@ == b,
        Err(e) => r is Err && r->Err_0@ == e,
    }
}

/// A block result, viewed.
pub open spec fn block_result(r: Result<Block, CoreError>) -> Result<BlockV, CoreErrorV> {
    match r {
        Ok(b) => Ok(b@),
        Err(e) => Err(e@),
    }
}

/// Whether the chain `f` and result `r` are what mining the pending pool of
/// `v` for `miner` may give: an empty chain is an error; otherwise, once the
/// next difficulty is known, some mined candidate (its time and nonce are
/// the clock's and the search's) is committed.
pub open spec fn mine_outcome(v: ChainV, miner: Seq<char>, f: ChainV, r: Result<BlockV, CoreErrorV>) -> bool {
    if v.chain.len() == 0 {
        r == Err::<BlockV, CoreErrorV>(CoreErrorV::EmptyChain) && f == v
    } else {
        match expected_difficulty(v, (v.chain.last().index + 1) as u64) {
            Err(e) => r == Err::<BlockV, CoreErrorV>(e) && f == v,
            Ok(d) => exists|b: BlockV| #[trigger] mined_candidate(v, miner, d, b) && {
                let (w, res) = commit_spec(v, b);
                &&& f == w
                &&& match res {
                    Ok(_) => r == Ok::<BlockV, CoreErrorV>(b),
                    Err(e) => r == Err::<BlockV, CoreErrorV>(e),
                }
            },
        }
    }
}

/// Whether `s` is among the strings.
fn contains_text(v: &Vec<String>, s: &str) -> (r: bool)
    ensures
        r == texts_view(v@).contains(s@),
{
    let mut i: usize = 0;
    while i < v.len()
        invariant
            i <= v@.len(),
            forall|j: int| 0 <= j < i ==> #[trigger] texts_view(v@)[j] != s@,
        decreases v.len() - i,
    {
        if str_eq(v[i].as_str(), s) {
            proof { assert(texts_view(v@)[i as int] == s@); }
            return true;
        }
        i = i + 1;
    }
    false
}

/// The ids of a block's transactions, in order.
fn block_ids(block: &Block) -> (r: Vec<String>)
    ensures
        texts_view(r@) == block_tx_ids(block@),
{
    let mut ids: Vec<String> = Vec::new();
    let mut i: usize = 0;
    while i < block.transactions.len()
        invariant
            i <= block.transactions@.len(),
            block@.transactions.len() == block.transactions@.len(),
            texts_view(ids@) == block_tx_ids(block@).subrange(0, i as int),
        decreases block.transactions.len() - i,
    {
        let ghost before = ids@;
        ids.push(block.transactions[i].id.clone());
        proof {
            assert(block@.transactions[i as int] == block.transactions@[i as int]@);
            assert(texts_view(ids@) =~= texts_view(before).push(block.transactions@[i as int].id@));
            assert(block_tx_ids(block@).subrange(0, i + 1) =~= block_tx_ids(block@).subrange(0, i as int).push(block.transactions@[i as int].id@));
        }
        i = i + 1;
    }
    proof { assert(block_tx_ids(block@).subrange(0, block@.transactions.len() as int) =~= block_tx_ids(block@)); }
    ids
}

impl Default for Blockchain {
    fn default() -> (r: Self)
        ensures
            r@ == fresh_chain(2, 50, default_lending_config()),
    {
        Blockchain::new(2, 50)
    }
}

impl Blockchain {
    /// The view of a chain reads its public fields.
    pub(crate) proof fn lemma_view_fields(&self)
        ensures
            self@.chain_id == self.chain_id@,
            self@.chain == self.chain@.map_values(|b: Block| b@),
            self@.pending == txs_view(self.pending_transactions@),
            self@.peers == texts_view(self.peers@),
            self@.difficulty == self.difficulty,
            self@.mining_reward == self.mining_reward,
            self@.target_block_time_secs == self.target_block_time_secs,
            self@.difficulty_adjustment_interval == self.difficulty_adjustment_interval,
            self@.states == viewed(self.contract_states.seq()),
            self@.events == events_view(self.contract_events.seq()),
            self@.pool == self.lending_pool@,
    {
    }

    /// A new chain with the default lending parameters.
    pub fn new(difficulty: u32, mining_reward: u64) -> (r: Self)
        ensures
            r@ == fresh_chain(difficulty, mining_reward, default_lending_config()),
    {
        Self::new_with_defi_config(difficulty, mining_reward, LendingConfig::default())
    }

    /// A new chain with the given lending parameters.
    pub fn new_with_defi_config(difficulty: u32, mining_reward: u64, defi_config: LendingConfig) -> (r: Self)
        ensures
            r@ == fresh_chain(difficulty, mining_reward, defi_config),
    {
        let r = Blockchain {
            chain_id: String::from_str(DEFAULT_CHAIN_ID),
            chain: vec![Block::genesis()],
            pending_transactions: Vec::new(),
            peers: Vec::new(),
            difficulty,
            initial_difficulty: difficulty,
            mining_reward,
            target_block_time_secs: 10,
            difficulty_adjustment_interval: DEFAULT_DIFFICULTY_ADJUSTMENT_INTERVAL,
            contract_states: KeyedMap::new(),
            contract_events: KeyedMap::new(),
            lending_pool: LendingPool::new(defi_config, 0),
        };
        proof {
            assert(r@.chain =~= seq![genesis_spec()]);
            assert(r@.pending =~= Seq::<TransactionV>::empty());
            assert(r@.peers =~= Seq::<Seq<char>>::empty());
            assert(r@.states =~= Seq::<(Seq<char>, Map<Seq<char>, i64>)>::empty());
            assert(r@.events =~= Seq::<(Seq<char>, Seq<Seq<char>>)>::empty());
        }
        r
    }

    /// The latest block.
    pub fn latest_block(&self) -> (r: Result<&Block, CoreError>)
        ensures
            self@.chain.len() == 0 ==> r == Err::<&Block, CoreError>(CoreError::EmptyChain),
            self@.chain.len() > 0 ==> r is Ok && r->Ok_0@ == self@.chain.last(),
    {
        if self.chain.len() == 0 {
            return Err(CoreError::EmptyChain);
        }
        let b = &self.chain[self.chain.len() - 1];
        Ok(b)
    }

    /// The difficulty the latest block was mined at.
    pub fn latest_block_difficulty(&self) -> (r: Result<u32, CoreError>)
        ensures
            self@.chain.len() == 0 ==> r == Err::<u32, CoreError>(CoreError::EmptyChain),
            self@.chain.len() > 0 ==> r == Ok::<u32, CoreError>(self@.chain.last().difficulty),
    {
        match self.latest_block() {
            Err(e) => Err(e),
            Ok(b) => Ok(b.difficulty),
        }
    }

    /// The difficulty the next block must have.
    pub fn next_block_expected_difficulty(&self) -> (r: Result<u32, CoreError>)
        requires
            tip_below(self@, 1),
        ensures
            self@.chain.len() == 0 ==> r == Err::<u32, CoreError>(CoreError::EmptyChain),
            self@.chain.len() > 0 ==> match expected_difficulty(self@, (self@.chain.last().index + 1) as u64) {
                Ok(d) => r == Ok::<u32, CoreError>(d),
                Err(e) => r is Err && r->Err_0@ == e,
            },
    {
        match self.latest_block() {
            Err(e) => Err(e),
            Ok(b) => self.expected_difficulty_for_height(b.index + 1),
        }
    }

    /// Remembers a peer address, unless it is blank or already known.
    pub fn add_peer(&mut self, peer: &str)
        ensures
            final(self)@ == (ChainV {
                peers: if !is_blank_seq(peer@) && !old(self)@.peers.contains(peer@) { old(self)@.peers.push(peer@) } else { old(self)@.peers },
                ..old(self)@
            }),
    {
        if is_blank(peer) {
            return;
        }
        let mut i: usize = 0;
        while i < self.peers.len()
            invariant
                i <= self.peers@.len(),
                forall|j: int| 0 <= j < i ==> #[trigger] self@.peers[j] != peer@,
            decreases self.peers.len() - i,
        {
            if str_eq(self.peers[i].as_str(), peer) {
                proof { assert(self@.peers[i as int] == peer@); }
                return;
            }
            i = i + 1;
        }
        let ghost before = self@;
        self.peers.push(String::from_str(peer));
        proof {
            assert(self@.peers =~= before.peers.push(peer@));
        }
    }

    /// A copy of the state variables of the contract at `contract_address`.
    pub fn contract_state_snapshot(&self, contract_address: &str) -> (r: Option<KeyedMap<i64>>)
        ensures
            match key_index(self@.states, contract_address@) {
                Some(i) => r is Some && r->Some_0@ == self@.states[i].1,
                None => r is None,
            },
    {
        match self.contract_states.lookup(contract_address) {
            Some(i) => Some(self.contract_states.value_at(i).duplicate()),
            None => None,
        }
    }

    /// A copy of the events of the contract at `contract_address`, oldest first.
    pub fn contract_events_snapshot(&self, contract_address: &str) -> (r: Vec<String>)
        ensures
            texts_view(r@) == events_of(self@.events, contract_address@),
    {
        proof {
            use_type_invariant(&self.contract_events);
            self.contract_events.lemma_unique();
            lemma_same_keys(self.contract_events.seq(), events_view(self.contract_events.seq()));
        }
        match self.contract_events.index_of(contract_address) {
            Some(i) => {
                proof { lemma_key_index(events_view(self.contract_events.seq()), contract_address@, i as int); }
                copy_texts(self.contract_events.value_at(i))
            },
            None => {
                let r: Vec<String> = Vec::new();
                proof { assert(texts_view(r@) =~= Seq::<Seq<char>>::empty()); }
                r
            },
        }
    }


    /// Compiles a contract payload and runs it on a copy of its contract's
    /// state; `None` when there is nothing to run.
    fn run_contract(&self, transaction: &Transaction) -> (r: Result<Option<Runtime>, CoreError>)
        ensures
            match contract_run(self@, transaction@) {
                Err(e) => r is Err && r->Err_0@ == e,
                Ok(None) => r is Ok && r->Ok_0 is None,
                Ok(Some(s)) => r is Ok && r->Ok_0 is Some && r->Ok_0->Some_0.vm()@ == s@,
            },
    {
        let source = match decode_contract_source(transaction) {
            Err(e) => { return Err(e); },
            Ok(None) => { return Ok(None); },
            Ok(Some(s)) => s,
        };
        let program = match compile(source.as_str()) {
            Err(e) => {
                return Err(CoreError::ContractCompileFailed { tx_id: transaction.id.clone(), reason: e.message() });
            },
            Ok(p) => p,
        };
        let ghost ops = program@.map_values(|o: Opcode| o@);
        let initial = match self.contract_states.lookup(transaction.to.as_str()) {
            Some(i) => self.contract_states.value_at(i).duplicate(),
            None => KeyedMap::new(),
        };
        proof {
            assert(initial@ == state_of(self@.states, transaction@.to));
        }
        let mut runtime = Runtime::from_state(initial);
        let ghost start = VmState { stack: Seq::empty(), vars: state_of(self@.states, transaction@.to), events: Seq::empty() };
        proof {
            assert(runtime.vm() == start);
            assert(ops_view(program@) == ops);
            assert(ops_view(program_of(ops)) == ops);
            lemma_run_view(program@, program_of(ops), start, 0, 0, DEFAULT_STEP_LIMIT as int);
        }
        match runtime.execute(program.as_slice()) {
            Err(e) => Err(CoreError::ContractExecutionFailed { tx_id: transaction.id.clone(), reason: e.message() }),
            Ok(_) => Ok(Some(runtime)),
        }
    }

    /// Checks a contract payload by running it, keeping nothing.
    fn validate_contract_payload(&self, transaction: &Transaction) -> (r: Result<(), CoreError>)
        ensures
            unit_result(r) == match contract_run(self@, transaction@) {
                Err(e) => Err(e),
                Ok(_) => Ok::<(), CoreErrorV>(()),
            },
    {
        match self.run_contract(transaction) {
            Err(e) => Err(e),
            Ok(_) => Ok(()),
        }
    }

    /// Checks a lending payload: well formed, sent by the position's owner
    /// (but for a liquidation), and successful on a copy of the pool.
    fn validate_defi_payload(&self, transaction: &Transaction) -> (r: Result<(), CoreError>)
        ensures
            unit_result(r) == defi_validation(self@, transaction@),
    {
        let payload = match checked_defi_payload(transaction) {
            Err(e) => { return Err(e); },
            Ok(p) => p,
        };
        if payload.is_self_operated() && !str_eq(payload.owner.as_str(), transaction.from.as_str()) {
            return Err(CoreError::DefiOwnerMismatch { owner: payload.owner.clone(), sender: transaction.from.clone() });
        }
        let mut probe = self.lending_pool.duplicate();
        match apply_defi_action(&mut probe, &payload, transaction.timestamp) {
            Err(e) => Err(CoreError::DefiExecutionFailed { tx_id: transaction.id.clone(), reason: e.message() }),
            Ok(_) => Ok(()),
        }
    }

    /// Checks the payload a transaction carries, changing nothing.
    fn validate_transaction_payload(&self, transaction: &Transaction) -> (r: Result<(), CoreError>)
        ensures
            unit_result(r) == payload_validation(self@, transaction@),
    {
        match transaction.kind {
            TransactionKind::ContractDeploy | TransactionKind::ContractCall => self.validate_contract_payload(transaction),
            TransactionKind::DefiAction => self.validate_defi_payload(transaction),
            _ => Ok(()),
        }
    }

    /// Applies one transaction to `balances`; on error they are unchanged.
    fn apply_transaction_to_balances(&self, transaction: &Transaction, balances: &mut KeyedMap<u64>) -> (r: Result<(), CoreError>)
        ensures
            match apply_to_balances(self@, transaction@, old(balances)@) {
                Ok(m) => r is Ok && final(balances)@ == m,
                Err(e) => r is Err && r->Err_0@ == e && final(balances)@ == old(balances)@,
            },
    {
        match transaction.validate_basic() {
            Err(e) => { return Err(e); },
            Ok(_) => {},
        }
        match self.validate_transaction_payload(transaction) {
            Err(e) => { return Err(e); },
            Ok(_) => {},
        }
        if is_internal_action(transaction) {
            return Ok(());
        }
        if !transaction.is_system() {
            let available: u64 = match balances.get(transaction.from.as_str()) {
                Some(v) => *v,
                None => 0,
            };
            if available < transaction.amount {
                return Err(CoreError::InsufficientBalance { address: transaction.from.clone(), needed: transaction.amount, available });
            }
            balances.insert(transaction.from.clone(), available - transaction.amount);
        }
        let recipient_balance: u64 = match balances.get(transaction.to.as_str()) {
            Some(v) => *v,
            None => 0,
        };
        balances.insert(transaction.to.clone(), recipient_balance.saturating_add(transaction.amount));
        Ok(())
    }

    /// Applies transactions in order, stopping at the first error (earlier
    /// ones keep their effect).
    fn apply_transactions_to_balances(&self, transactions: &[Transaction], balances: &mut KeyedMap<u64>) -> (r: Result<(), CoreError>)
        ensures
            final(balances)@ == apply_all(self@, txs_view(transactions@), old(balances)@).0,
            match apply_all(self@, txs_view(transactions@), old(balances)@).1 {
                None => r is Ok,
                Some(e) => r is Err && r->Err_0@ == e,
            },
    {
        let ghost tv = txs_view(transactions@);
        let ghost start = balances@;
        let mut i: usize = 0;
        while i < transactions.len()
            invariant
                i <= transactions@.len(),
                tv == txs_view(transactions@),
                tv.len() == transactions@.len(),
                start == old(balances)@,
                fold_balances(self@, tv, i as int, start) == (balances@, None::<CoreErrorV>),
            decreases transactions.len() - i,
        {
            let ghost before = balances@;
            proof { assert(tv[i as int] == transactions@[i as int]@); }
            match self.apply_transaction_to_balances(&transactions[i], balances) {
                Err(e) => {
                    proof {
                        assert(fold_balances(self@, tv, i + 1, start) == (before, Some(e@)));
                        lemma_fold_stops(self@, tv, i + 1, tv.len() as int, start);
                    }
                    return Err(e);
                },
                Ok(_) => {},
            }
            i = i + 1;
        }
        Ok(())
    }

    /// Balances after replaying the whole chain (a block that fails part-way
    /// keeps what its earlier transactions did).
    pub fn balances(&self) -> (r: KeyedMap<u64>)
        ensures
            r@ == balances_spec(self@),
    {
        let mut balances: KeyedMap<u64> = KeyedMap::new();
        let mut i: usize = 0;
        while i < self.chain.len()
            invariant
                i <= self.chain@.len(),
                balances@ == chain_balances(self@, i as int),
            decreases self.chain.len() - i,
        {
            proof { assert(self@.chain[i as int].transactions == txs_view(self.chain@[i as int].transactions@)); }
            let _ = self.apply_transactions_to_balances(self.chain[i].transactions.as_slice(), &mut balances);
            i = i + 1;
        }
        balances
    }

    /// Adds a transaction to the pending pool when it is well formed, not a
    /// system one, and the pool with it stays payable on current balances.
    pub fn add_transaction(&mut self, transaction: Transaction) -> (r: Result<(), CoreError>)
        ensures
            match add_tx_check(old(self)@, transaction@) {
                Ok(_) => r is Ok && final(self)@ == (ChainV { pending: old(self)@.pending.push(transaction@), ..old(self)@ }),
                Err(e) => r is Err && r->Err_0@ == e && final(self)@ == old(self)@,
            },
    {
        match transaction.validate_basic() {
            Err(e) => { return Err(e); },
            Ok(_) => {},
        }
        if transaction.is_system() {
            return Err(CoreError::ReservedSystemAddress);
        }
        let mut balances = self.balances();
        match self.apply_transactions_to_balances(self.pending_transactions.as_slice(), &mut balances) {
            Err(e) => { return Err(e); },
            Ok(_) => {},
        }
        match self.apply_transaction_to_balances(&transaction, &mut balances) {
            Err(e) => { return Err(e); },
            Ok(_) => {},
        }
        let ghost before = self@;
        self.pending_transactions.push(transaction);
        proof { assert(self@.pending =~= before.pending.push(transaction@)); }
        Ok(())
    }


    /// Runs a confirmed contract transaction: its state and events are kept.
    fn apply_contract_transition(&mut self, transaction: &Transaction) -> (r: Result<(), CoreError>)
        ensures
            (final(self)@, unit_result(r)) == contract_transition(old(self)@, transaction@),
    {
        let runtime = match self.run_contract(transaction) {
            Err(e) => { return Err(e); },
            Ok(None) => { return Ok(()); },
            Ok(Some(rt)) => rt,
        };
        let state = runtime.state().duplicate();
        let ghost v0 = self@;
        self.contract_states.store(transaction.to.clone(), state);
        let evs = runtime.events();
        let ghost v1 = self@;
        proof {
            assert(v1 == ChainV { states: put_entry(v0.states, transaction@.to, runtime.vm().vars), ..v0 });
        }
        if evs.len() > 0 {
            append_events(&mut self.contract_events, &transaction.to, evs);
            proof {
                assert(texts_view(evs@) == runtime.vm().events);
                assert(self@ == ChainV { events: with_events(v0.events, transaction@.to, runtime.vm().events), ..v1 });
            }
        } else {
            proof {
                assert(runtime.vm().events.len() == 0);
                assert(self@ == ChainV { events: with_events(v0.events, transaction@.to, runtime.vm().events), ..v1 });
            }
        }
        Ok(())
    }

    /// Runs a confirmed lending transaction on the chain's pool.
    fn apply_defi_transition(&mut self, transaction: &Transaction) -> (r: Result<(), CoreError>)
        ensures
            (final(self)@, unit_result(r)) == defi_transition(old(self)@, transaction@),
    {
        let payload = match checked_defi_payload(transaction) {
            Err(e) => { return Err(e); },
            Ok(p) => p,
        };
        match apply_defi_action(&mut self.lending_pool, &payload, transaction.timestamp) {
            Err(e) => Err(CoreError::DefiExecutionFailed { tx_id: transaction.id.clone(), reason: e.message() }),
            Ok(_) => Ok(()),
        }
    }

    /// What one confirmed transaction changes beyond balances.
    fn apply_state_transition(&mut self, transaction: &Transaction) -> (r: Result<(), CoreError>)
        ensures
            (final(self)@, unit_result(r)) == tx_transition(old(self)@, transaction@),
    {
        match transaction.kind {
            TransactionKind::ContractDeploy | TransactionKind::ContractCall => self.apply_contract_transition(transaction),
            TransactionKind::DefiAction => self.apply_defi_transition(transaction),
            _ => Ok(()),
        }
    }

    /// Moves contract state and the pool forward for confirmed transactions,
    /// stopping at the first error (earlier ones keep their effect).
    fn apply_state_transitions(&mut self, transactions: &[Transaction]) -> (r: Result<(), CoreError>)
        ensures
            final(self)@ == transitions(old(self)@, txs_view(transactions@), transactions@.len() as int).0,
            match transitions(old(self)@, txs_view(transactions@), transactions@.len() as int).1 {
                None => r is Ok,
                Some(e) => r is Err && r->Err_0@ == e,
            },
    {
        let ghost tv = txs_view(transactions@);
        let ghost start = self@;
        let mut i: usize = 0;
        while i < transactions.len()
            invariant
                i <= transactions@.len(),
                tv == txs_view(transactions@),
                tv.len() == transactions@.len(),
                start == old(self)@,
                transitions(start, tv, i as int) == (self@, None::<CoreErrorV>),
            decreases transactions.len() - i,
        {
            proof { assert(tv[i as int] == transactions@[i as int]@); }
            match self.apply_state_transition(&transactions[i]) {
                Err(e) => {
                    proof {
                        assert(transitions(start, tv, i + 1) == (self@, Some(e@)));
                        lemma_transitions_stop(start, tv, i + 1, tv.len() as int);
                    }
                    return Err(e);
                },
                Ok(_) => {},
            }
            i = i + 1;
        }
        Ok(())
    }

    /// Sets the cached difficulty to the one the next height expects, when
    /// it can be computed.
    fn refresh_next_difficulty_cache(&mut self)
        requires
            tip_below(old(self)@, 1),
        ensures
            final(self)@ == refresh_spec(old(self)@),
    {
        if self.chain.len() == 0 {
            return;
        }
        let next = self.chain[self.chain.len() - 1].index + 1;
        proof { assert(self.chain@[self.chain@.len() - 1]@ == self@.chain.last()); }
        match self.expected_difficulty_for_height(next) {
            Ok(d) => { self.difficulty = d; },
            Err(_) => {},
        }
    }

    /// Checks that `block` may follow the latest block: its own integrity,
    /// height, link, difficulty, and that its transactions are payable on
    /// current balances.
    pub fn validate_next_block(&self, block: &Block) -> (r: Result<(), CoreError>)
        requires
            tip_below(self@, 1),
        ensures
            unit_result(r) == next_block_check(self@, block@),
    {
        let latest = match self.latest_block() {
            Err(e) => { return Err(e); },
            Ok(b) => b,
        };
        match block.validate_integrity(false) {
            Err(e) => { return Err(e); },
            Ok(_) => {},
        }
        if block.index != latest.index + 1 {
            return Err(CoreError::InvalidBlockIndex { expected: latest.index + 1, actual: block.index });
        }
        if !str_eq(block.previous_hash.as_str(), latest.hash.as_str()) {
            return Err(CoreError::InvalidPreviousHash { index: block.index });
        }
        let expected_difficulty = match self.expected_difficulty_for_height(block.index) {
            Err(e) => { return Err(e); },
            Ok(d) => d,
        };
        if block.difficulty != expected_difficulty {
            return Err(CoreError::InvalidBlockDifficulty { index: block.index, expected: expected_difficulty, actual: block.difficulty });
        }
        let mut balances = self.balances();
        self.apply_transactions_to_balances(block.transactions.as_slice(), &mut balances)
    }


    /// Keeps the pending transactions whose id is not among `ids`.
    fn retain_unconfirmed(&mut self, ids: &Vec<String>)
        ensures
            final(self)@ == (ChainV { pending: unconfirmed(old(self)@.pending, texts_view(ids@)), ..old(self)@ }),
    {
        let ghost tv = old(self)@.pending;
        let ghost idv = texts_view(ids@);
        let mut kept: Vec<Transaction> = Vec::new();
        let mut i: usize = 0;
        proof { assert(tv.take(0) =~= Seq::<TransactionV>::empty()); }
        while i < self.pending_transactions.len()
            invariant
                i <= self.pending_transactions@.len(),
                self@ == old(self)@,
                tv == old(self)@.pending,
                tv.len() == self.pending_transactions@.len(),
                idv == texts_view(ids@),
                txs_view(kept@) == unconfirmed(tv.take(i as int), idv),
            decreases self.pending_transactions.len() - i,
        {
            let t = &self.pending_transactions[i];
            proof {
                assert(tv[i as int] == t@);
                assert(tv.take(i + 1).drop_last() =~= tv.take(i as int));
                assert(tv.take(i + 1).last() == t@);
            }
            if !contains_text(ids, t.id.as_str()) {
                let ghost before = kept@;
                kept.push(copy_transaction(t));
                proof { assert(txs_view(kept@) =~= txs_view(before).push(t@)); }
            }
            i = i + 1;
        }
        proof { assert(tv.take(tv.len() as int) =~= tv); }
        self.pending_transactions = kept;
    }

    /// Confirms a block that was mined from the pending pool: checks it,
    /// moves contract state and the pool forward, appends it, empties the
    /// pending pool and refreshes the cached difficulty.
    pub fn commit_mined_block(&mut self, candidate: Block) -> (r: Result<Block, CoreError>)
        requires
            tip_below(old(self)@, 2),
        ensures
            committed(old(self)@, candidate@, final(self)@, r),
    {
        match self.validate_next_block(&candidate) {
            Err(e) => { return Err(e); },
            Ok(_) => {},
        }
        let ghost v0 = self@;
        match self.apply_state_transitions(candidate.transactions.as_slice()) {
            Err(e) => { return Err(e); },
            Ok(_) => {},
        }
        proof { lemma_transitions_frame(v0, candidate@.transactions, candidate@.transactions.len() as int); }
        let mined = copy_block(&candidate);
        let ghost w = self@;
        self.chain.push(candidate);
        self.pending_transactions = Vec::new();
        proof {
            assert(self@.chain =~= w.chain.push(mined@));
            assert(self@.pending =~= Seq::<TransactionV>::empty());
            assert(self@ == ChainV { chain: w.chain.push(mined@), pending: Seq::empty(), ..w });
        }
        self.refresh_next_difficulty_cache();
        Ok(mined)
    }

    /// Mines the pending transactions, with a reward to `miner_address`, into
    /// a block on top of the latest one, and commits it.
    pub fn mine_pending_transactions(&mut self, miner_address: &str) -> (r: Result<Block, CoreError>)
        requires
            tip_below(old(self)@, 2),
        ensures
            mine_outcome(old(self)@, miner_address@, final(self)@, block_result(r)),
    {
        let reward_tx = Transaction::system(miner_address, self.mining_reward, None);
        let mut block_transactions = copy_transactions(&self.pending_transactions);
        let ghost reward = reward_tx@;
        block_transactions.push(reward_tx);
        let previous_block = match self.latest_block() {
            Err(e) => { return Err(e); },
            Ok(b) => b,
        };
        let next_index = previous_block.index + 1;
        let expected = match self.expected_difficulty_for_height(next_index) {
            Err(e) => { return Err(e); },
            Ok(d) => d,
        };
        let ghost txs = txs_view(block_transactions@);
        proof {
            assert(txs =~= self@.pending.push(reward));
            assert(txs.drop_last() =~= self@.pending);
        }
        let mut candidate = Block::new(next_index, block_transactions, previous_block.hash.as_str(), expected, miner_address);
        let ghost fresh = candidate@;
        candidate.mine(expected);
        proof {
            let b = candidate@;
            assert forall|n: u64| n < b.nonce implies !meets_spec(#[trigger] block_hash_spec(b, n), expected) by {
                assert(block_hash_spec(b, n) == block_hash_spec(fresh, n));
            }
            assert(block_hash_spec(b, b.nonce) == block_hash_spec(fresh, b.nonce));
            assert(block_hash_spec(b, 0) == block_hash_spec(fresh, 0));
            assert(mined_candidate(self@, miner_address@, expected, b));
        }
        let ghost b = candidate@;
        let r = self.commit_mined_block(candidate);
        proof {
            assert(mined_candidate(old(self)@, miner_address@, expected, b));
            assert(committed(old(self)@, b, self@, r));
        }
        r
    }

    /// Appends a block received from a peer: checked, confirmed, and its
    /// transactions removed from the pending pool.
    #[verifier::rlimit(40)]
    pub fn append_external_block(&mut self, block: Block) -> (r: Result<(), CoreError>)
        requires
            tip_below(old(self)@, 2),
        ensures
            (final(self)@, unit_result(r)) == append_spec(old(self)@, block@),
    {
        match self.validate_next_block(&block) {
            Err(e) => { return Err(e); },
            Ok(_) => {},
        }
        let ghost v0 = self@;
        match self.apply_state_transitions(block.transactions.as_slice()) {
            Err(e) => { return Err(e); },
            Ok(_) => {},
        }
        proof { lemma_transitions_frame(v0, block@.transactions, block@.transactions.len() as int); }
        let ids = block_ids(&block);
        let ghost w = self@;
        let ghost bv = block@;
        self.chain.push(block);
        proof {
            assert(self@.chain =~= w.chain.push(bv));
            assert(self@ == ChainV { chain: w.chain.push(bv), ..w });
        }
        self.refresh_next_difficulty_cache();
        self.retain_unconfirmed(&ids);
        Ok(())
    }

    /// Checks the whole chain: the genesis block, then each block's
    /// integrity, height, link and difficulty, each followed by its
    /// transactions replayed on balances.
    #[verifier::rlimit(40)]
    pub fn validate_chain(&self) -> (r: Result<(), CoreError>)
        requires
            heights_fit(self@),
        ensures
            unit_result(r) == chain_check(self@),
    {
        if self.chain.len() == 0 {
            return Err(CoreError::EmptyChain);
        }
        let genesis = Block::genesis();
        let first = &self.chain[0];
        proof { assert(first@ == self@.chain[0]); }
        if !str_eq(first.hash.as_str(), genesis.hash.as_str()) || !block_eq(first, &genesis) {
            return Err(CoreError::InvalidGenesisBlock);
        }
        let mut balances: KeyedMap<u64> = KeyedMap::new();
        let mut index: usize = 0;
        let ghost v = self@;
        let ghost n = v.chain.len() as int;
        let len = self.chain.len();
        proof { assert(n == len); }
        while index < len
            invariant
                index <= len,
                n == len,
                n == v.chain.len(),
                v == self@,
                v.chain[0] == genesis_spec(),
                heights_fit(v),
                scan_chain(v, index as int) == (balances@, None::<CoreErrorV>),
            decreases len - index,
        {
            let ghost m = balances@;
            let step = self.scan_block(index, &mut balances);
            proof { assert(scan_chain(v, index + 1) == scan_next(v, index as int, m)); }
            match step {
                Err(e) => {
                    proof { lemma_scan_stops(v, index + 1, n); }
                    return Err(e);
                },
                Ok(_) => {},
            }
            index = index + 1;
        }
        Ok(())
    }

    /// Checks block `i` against its predecessor, then replays its transactions on `balances`.
    fn scan_block(&self, i: usize, balances: &mut KeyedMap<u64>) -> (r: Result<(), CoreError>)
        requires
            i < self@.chain.len(),
            heights_fit(self@),
        ensures
            final(balances)@ == scan_next(self@, i as int, old(balances)@).0,
            match scan_next(self@, i as int, old(balances)@).1 {
                None => r is Ok,
                Some(e) => r is Err && r->Err_0@ == e,
            },
    {
        proof { reveal(scan_next); }
        match self.check_link(i) {
            Err(e) => { return Err(e); },
            Ok(_) => {},
        }
        proof { assert(self@.chain[i as int].transactions == txs_view(self.chain@[i as int].transactions@)); }
        self.apply_transactions_to_balances(self.chain[i].transactions.as_slice(), balances)
    }

    /// The checks of block `i` against the block before it.
    fn check_link(&self, i: usize) -> (r: Result<(), CoreError>)
        requires
            i < self@.chain.len(),
            heights_fit(self@),
        ensures
            unit_result(r) == block_link_check(self@, i as int),
    {
        let block = &self.chain[i];
        proof { assert(block@ == self@.chain[i as int]); }
        match block.validate_integrity(i == 0) {
            Err(e) => { return Err(e); },
            Ok(_) => {},
        }
        if i == 0 {
            return Ok(());
        }
        let previous = &self.chain[i - 1];
        proof {
            assert(previous@ == self@.chain[i - 1]);
            assert(self@.chain[i - 1].index < u64::MAX);
        }
        if block.index != previous.index + 1 {
            return Err(CoreError::InvalidBlockIndex { expected: previous.index + 1, actual: block.index });
        }
        if !str_eq(block.previous_hash.as_str(), previous.hash.as_str()) {
            return Err(CoreError::InvalidPreviousHash { index: block.index });
        }
        let expected_difficulty = match self.expected_difficulty_for_height(block.index) {
            Err(e) => { return Err(e); },
            Ok(d) => d,
        };
        if block.difficulty != expected_difficulty {
            return Err(CoreError::InvalidBlockDifficulty { index: block.index, expected: expected_difficulty, actual: block.difficulty });
        }
        Ok(())
    }

    /// The difficulty after a window that took `elapsed_secs` where
    /// `expected_elapsed_secs` were planned: raised when the window was
    /// faster than half the plan, lowered when slower than double.
    pub fn adjust_difficulty_with_elapsed(previous_difficulty: u32, elapsed_secs: u64, expected_elapsed_secs: u64) -> (r: u32)
        ensures
            r == adjust_spec(previous_difficulty, elapsed_secs, expected_elapsed_secs),
    {
        if expected_elapsed_secs == 0 {
            return previous_difficulty;
        }
        let half = expected_elapsed_secs / 2;
        let lower_bound = if half < 1 { 1 } else { half };
        let upper_bound = match expected_elapsed_secs.checked_mul(2) {
            Some(x) => x,
            None => u64::MAX,
        };
        if elapsed_secs < lower_bound {
            previous_difficulty.saturating_add(1)
        } else if elapsed_secs > upper_bound {
            previous_difficulty.saturating_sub(1)
        } else {
            previous_difficulty
        }
    }

    /// The difficulty a block at `height` must have.
    fn expected_difficulty_for_height(&self, height: u64) -> (r: Result<u32, CoreError>)
        ensures
            match expected_difficulty(self@, height) {
                Ok(d) => r == Ok::<u32, CoreError>(d),
                Err(e) => r is Err && r->Err_0@ == e,
            },
    {
        if height == 0 {
            return Ok(0);
        }
        if height == 1 {
            return Ok(self.initial_difficulty);
        }
        let previous_position = height - 1;
        if previous_position >= self.chain.len() as u64 {
            return Err(CoreError::EmptyChain);
        }
        let previous_block = &self.chain[previous_position as usize];
        proof { assert(previous_block@ == self@.chain[height - 1]); }
        let interval = self.difficulty_adjustment_interval;
        if interval <= 1 || height % interval != 0 || height < interval {
            return Ok(previous_block.difficulty);
        }
        let start_position = height - interval;
        let start_block = &self.chain[start_position as usize];
        proof { assert(start_block@ == self@.chain[height - interval]); }
        if start_block.index == 0 {
            return Ok(previous_block.difficulty);
        }
        let diff: i128 = previous_block.timestamp as i128 - start_block.timestamp as i128;
        let clamped: i128 = if diff > i64::MAX as i128 { i64::MAX as i128 } else { diff };
        let elapsed_secs: u64 = if clamped < 1 { 1 } else { clamped as u64 };
        let expected_elapsed_secs = match self.target_block_time_secs.checked_mul(interval - 1) {
            Some(x) => x,
            None => u64::MAX,
        };
        Ok(Self::adjust_difficulty_with_elapsed(previous_block.difficulty, elapsed_secs, expected_elapsed_secs))
    }
}

} // verus!
