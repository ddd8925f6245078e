//! The rules of the chain, stated over its view: the difficulty each height
//! expects, how transactions move balances, what a contract or lending
//! payload must satisfy, and what confirming a block changes.
//!
//! Every rule is a function of the chain's view; the functions of
//! `blockchain` are proved to compute exactly these, including the partial
//! effects that an error half-way through leaves behind.

use vstd::prelude::*;
use vstd::utf8::{valid_utf8, decode_utf8};
use crate::block::{BlockV, integrity_spec, genesis_spec};
use crate::bytecode::Opcode;
use crate::chain_error::CoreErrorV;
use crate::compiler::{OpcodeV, compile_spec, compile_error_text};
use crate::defi::{PoolView, DefiErrorV, defi_error_text, deposit_spec, borrow_spec, repay_spec, withdraw_spec, liquidate_spec};
use crate::defi_payload::{DefiAction, DefiPayloadV, parse_payload, payload_check, payload_error_text, payload_decode_text};
use crate::keyed::{key_index, put_entry};
use crate::runtime::{VmState, run, vm_error_text, DEFAULT_STEP_LIMIT};
use crate::text::is_blank_seq;
use crate::transaction::{TransactionV, TransactionKind, tx_check, is_system_spec};

verus! {

/// A blockchain, viewed.
pub struct ChainV {
    pub chain_id: Seq<char>,
    pub chain: Seq<BlockV>,
    pub pending: Seq<TransactionV>,
    pub peers: Seq<Seq<char>>,
    pub difficulty: u32,
    pub initial_difficulty: u32,
    pub mining_reward: u64,
    pub target_block_time_secs: u64,
    pub difficulty_adjustment_interval: u64,
    /// Contract state variables, by contract address, in insertion order.
    pub states: Seq<(Seq<char>, Map<Seq<char>, i64>)>,
    /// Contract events, by contract address, in insertion order.
    pub events: Seq<(Seq<char>, Seq<Seq<char>>)>,
    pub pool: PoolView,
}

/// Balances, by address.
pub type Balances = Map<Seq<char>, u64>;

/// The text of the standard library's error for bytes that are not UTF-8.
pub uninterp spec fn utf8_error_text(bytes: Seq<u8>) -> Seq<char>;

// ---------------------------------------------------------------- difficulty

/// One more, saturating.
pub open spec fn bump_up(d: u32) -> u32 {
    if d == u32::MAX { d } else { (d + 1) as u32 }
}

/// One less, saturating.
pub open spec fn bump_down(d: u32) -> u32 {
    if d == 0 { 0 } else { (d - 1) as u32 }
}

/// Product, saturating.
pub open spec fn sat_mul_u64(a: u64, b: u64) -> u64 {
    if a * b > u64::MAX { u64::MAX } else { (a * b) as u64 }
}

/// The difficulty after a window that took `elapsed` seconds where
/// `expected` were planned: one more when faster than half, one less when
/// slower than double, else unchanged.
pub open spec fn adjust_spec(prev: u32, elapsed: u64, expected: u64) -> u32 {
    if expected == 0 {
        prev
    } else {
        let lower = if expected / 2 < 1 { 1 } else { expected / 2 };
        if elapsed < lower {
            bump_up(prev)
        } else if elapsed > sat_mul_u64(expected, 2) {
            bump_down(prev)
        } else {
            prev
        }
    }
}

/// Seconds from `earlier` to `later`, at least one.
pub open spec fn elapsed_spec(later: i64, earlier: i64) -> u64 {
    let d = later - earlier;
    let c = if d > i64::MAX { i64::MAX as int } else { d };
    if c < 1 { 1 } else { c as u64 }
}

/// The difficulty that a block at `height` must have.
pub open spec fn expected_difficulty(v: ChainV, height: u64) -> Result<u32, CoreErrorV> {
    if height == 0 {
        Ok(0)
    } else if height == 1 {
        Ok(v.initial_difficulty)
    } else if height - 1 >= v.chain.len() {
        Err(CoreErrorV::EmptyChain)
    } else {
        let prev = v.chain[height - 1];
        let interval = v.difficulty_adjustment_interval;
        if interval <= 1 || height % interval != 0 || height < interval {
            Ok(prev.difficulty)
        } else {
            let start = v.chain[height - interval];
            if start.index == 0 {
                Ok(prev.difficulty)
            } else {
                Ok(adjust_spec(
                    prev.difficulty,
                    elapsed_spec(prev.timestamp, start.timestamp),
                    sat_mul_u64(v.target_block_time_secs, (interval - 1) as u64),
                ))
            }
        }
    }
}

// ---------------------------------------------------------------- payloads

/// The contract source a transaction carries: `None` when there is none or it is blank.
pub open spec fn contract_source(t: TransactionV) -> Result<Option<Seq<char>>, CoreErrorV> {
    match t.payload {
        None => Ok(None),
        Some(p) => if p.len() == 0 {
            Ok(None)
        } else if !valid_utf8(p) {
            Err(CoreErrorV::ContractPayloadEncodingInvalid { tx_id: t.id, reason: utf8_error_text(p) })
        } else if is_blank_seq(decode_utf8(p)) {
            Ok(None)
        } else {
            Ok(Some(decode_utf8(p)))
        },
    }
}

/// A program, viewed.
pub open spec fn ops_view(p: Seq<Opcode>) -> Seq<OpcodeV> {
    p.map_values(|o: Opcode| o@)
}

/// A program whose instructions view as `ops` (the runtime reads no more of them).
pub open spec fn program_of(ops: Seq<OpcodeV>) -> Seq<Opcode> {
    choose|p: Seq<Opcode>| #[trigger] ops_view(p) == ops
}

/// The state variables of the contract at `addr` (none when it has not run).
pub open spec fn state_of(states: Seq<(Seq<char>, Map<Seq<char>, i64>)>, addr: Seq<char>) -> Map<Seq<char>, i64> {
    match key_index(states, addr) {
        Some(i) => states[i].1,
        None => Map::empty(),
    }
}

/// The events of the contract at `addr` so far.
pub open spec fn events_of(events: Seq<(Seq<char>, Seq<Seq<char>>)>, addr: Seq<char>) -> Seq<Seq<char>> {
    match key_index(events, addr) {
        Some(i) => events[i].1,
        None => Seq::empty(),
    }
}

/// Compiles the contract payload and runs it on the state of the contract
/// it is sent to: the machine's final state, or `None` when there is nothing
/// to run.
pub open spec fn contract_run(v: ChainV, t: TransactionV) -> Result<Option<VmState>, CoreErrorV> {
    match contract_source(t) {
        Err(e) => Err(e),
        Ok(None) => Ok(None),
        Ok(Some(src)) => match compile_spec(src) {
            Err(ce) => Err(CoreErrorV::ContractCompileFailed { tx_id: t.id, reason: compile_error_text(ce) }),
            Ok(ops) => {
                let start = VmState { stack: Seq::empty(), vars: state_of(v.states, t.to), events: Seq::empty() };
                let (s, r) = run(program_of(ops), start, 0, 0, DEFAULT_STEP_LIMIT as int);
                match r {
                    Err(ve) => Err(CoreErrorV::ContractExecutionFailed { tx_id: t.id, reason: vm_error_text(ve) }),
                    Ok(_) => Ok(Some(s)),
                }
            },
        },
    }
}

/// The reason given when a lending transaction has no payload.
pub open spec fn missing_payload_text() -> Seq<char> {
    "缺少 DeFi 载荷"@
}

/// The lending payload of a transaction, read.
pub open spec fn defi_parse(t: TransactionV) -> Result<DefiPayloadV, CoreErrorV> {
    match t.payload {
        None => Err(CoreErrorV::DefiPayloadInvalid { tx_id: t.id, reason: missing_payload_text() }),
        Some(b) => match parse_payload(b) {
            None => Err(CoreErrorV::DefiPayloadInvalid { tx_id: t.id, reason: "DeFi 载荷解码失败: "@ + payload_decode_text() }),
            Some(p) => Ok(p),
        },
    }
}

/// The lending payload of a transaction, read and checked.
pub open spec fn defi_decode(t: TransactionV) -> Result<DefiPayloadV, CoreErrorV> {
    match defi_parse(t) {
        Err(e) => Err(e),
        Ok(p) => match payload_check(p) {
            Err(e) => Err(CoreErrorV::DefiPayloadInvalid { tx_id: t.id, reason: payload_error_text(e) }),
            Ok(_) => Ok(p),
        },
    }
}

/// Forgets the value of a result.
pub open spec fn unit_of<T>(r: Result<T, DefiErrorV>) -> Result<(), DefiErrorV> {
    match r {
        Ok(_) => Ok(()),
        Err(e) => Err(e),
    }
}

/// Runs a lending payload on a pool at time `now`.
pub open spec fn defi_apply(pool: PoolView, p: DefiPayloadV, now: i64) -> (PoolView, Result<(), DefiErrorV>) {
    match p.action {
        DefiAction::DepositCollateral => {
            let (w, r) = deposit_spec(pool, p.owner, p.amount);
            (w, unit_of(r))
        },
        DefiAction::Borrow => {
            let (w, r) = borrow_spec(pool, p.owner, p.amount, now);
            (w, unit_of(r))
        },
        DefiAction::Repay => {
            let (w, r) = repay_spec(pool, p.owner, p.amount, now);
            (w, unit_of(r))
        },
        DefiAction::WithdrawCollateral => {
            let (w, r) = withdraw_spec(pool, p.owner, p.amount, now);
            (w, unit_of(r))
        },
        DefiAction::Liquidate => {
            let (w, r) = liquidate_spec(pool, p.owner, p.amount, now);
            (w, unit_of(r))
        },
    }
}

/// The check of a lending transaction: a well-formed payload, sent by the
/// position's owner (but for a liquidation), that would succeed on the pool.
pub open spec fn defi_validation(v: ChainV, t: TransactionV) -> Result<(), CoreErrorV> {
    match defi_decode(t) {
        Err(e) => Err(e),
        Ok(p) => if p.action != DefiAction::Liquidate && p.owner != t.from {
            Err(CoreErrorV::DefiOwnerMismatch { owner: p.owner, sender: t.from })
        } else {
            match defi_apply(v.pool, p, t.timestamp).1 {
                Err(de) => Err(CoreErrorV::DefiExecutionFailed { tx_id: t.id, reason: defi_error_text(de) }),
                Ok(_) => Ok(()),
            }
        },
    }
}

/// Whether a transaction carries a contract.
pub open spec fn is_contract_kind(k: TransactionKind) -> bool {
    k == TransactionKind::ContractDeploy || k == TransactionKind::ContractCall
}

/// The check of a transaction's payload, which changes nothing.
pub open spec fn payload_validation(v: ChainV, t: TransactionV) -> Result<(), CoreErrorV> {
    if is_contract_kind(t.kind) {
        match contract_run(v, t) {
            Err(e) => Err(e),
            Ok(_) => Ok(()),
        }
    } else if t.kind == TransactionKind::DefiAction {
        defi_validation(v, t)
    } else {
        Ok(())
    }
}

// ---------------------------------------------------------------- balances

/// The balance of `a` (zero when unknown).
pub open spec fn balance_of(bal: Balances, a: Seq<char>) -> u64 {
    if bal.contains_key(a) { bal[a] } else { 0 }
}

/// Applies one transaction to balances. A lending action moves no balance:
/// its amount counts collateral or debt.
pub open spec fn apply_to_balances(v: ChainV, t: TransactionV, bal: Balances) -> Result<Balances, CoreErrorV> {
    match tx_check(t) {
        Err(e) => Err(e),
        Ok(_) => match payload_validation(v, t) {
            Err(e) => Err(e),
            Ok(_) => if t.kind == TransactionKind::DefiAction {
                Ok(bal)
            } else {
                let avail = balance_of(bal, t.from);
                if !is_system_spec(t) && avail < t.amount {
                    Err(CoreErrorV::InsufficientBalance { address: t.from, needed: t.amount, available: avail })
                } else {
                    let b1 = if is_system_spec(t) { bal } else { bal.insert(t.from, (avail - t.amount) as u64) };
                    let rb = balance_of(b1, t.to);
                    Ok(b1.insert(t.to, if rb + t.amount > u64::MAX { u64::MAX } else { (rb + t.amount) as u64 }))
                }
            },
        },
    }
}

/// Applies the first `n` transactions in order, stopping at the first error
/// and keeping what the earlier ones did.
pub open spec fn fold_balances(v: ChainV, txs: Seq<TransactionV>, n: int, bal: Balances) -> (Balances, Option<CoreErrorV>)
    decreases n,
{
    if n <= 0 {
        (bal, None)
    } else {
        let (m, e) = fold_balances(v, txs, n - 1, bal);
        match e {
            Some(_) => (m, e),
            None => match apply_to_balances(v, txs[n - 1], m) {
                Ok(m2) => (m2, None),
                Err(x) => (m, Some(x)),
            },
        }
    }
}

/// Once an error stops the fold, longer prefixes end the same way.
pub proof fn lemma_fold_stops(v: ChainV, txs: Seq<TransactionV>, k: int, n: int, bal: Balances)
    requires
        0 <= k <= n,
        fold_balances(v, txs, k, bal).1 is Some,
    ensures
        fold_balances(v, txs, n, bal) == fold_balances(v, txs, k, bal),
    decreases n - k,
{
    if n > k {
        lemma_fold_stops(v, txs, k, n - 1, bal);
    }
}

/// Applies all of `txs`.
pub open spec fn apply_all(v: ChainV, txs: Seq<TransactionV>, bal: Balances) -> (Balances, Option<CoreErrorV>) {
    fold_balances(v, txs, txs.len() as int, bal)
}

/// Balances after the first `k` blocks (a block that fails part-way keeps
/// what its earlier transactions did).
pub open spec fn chain_balances(v: ChainV, k: int) -> Balances
    decreases k,
{
    if k <= 0 {
        Map::empty()
    } else {
        apply_all(v, v.chain[k - 1].transactions, chain_balances(v, k - 1)).0
    }
}

/// Balances after the whole chain.
pub open spec fn balances_spec(v: ChainV) -> Balances {
    chain_balances(v, v.chain.len() as int)
}

/// Whether a transaction may join the pending pool.
pub open spec fn add_tx_check(v: ChainV, t: TransactionV) -> Result<(), CoreErrorV> {
    match tx_check(t) {
        Err(e) => Err(e),
        Ok(_) => if is_system_spec(t) {
            Err(CoreErrorV::ReservedSystemAddress)
        } else {
            let (m, e) = apply_all(v, v.pending, balances_spec(v));
            match e {
                Some(x) => Err(x),
                None => match apply_to_balances(v, t, m) {
                    Err(x) => Err(x),
                    Ok(_) => Ok(()),
                },
            }
        },
    }
}

// ---------------------------------------------------------------- blocks

/// Whether `b` may follow the chain's latest block.
pub open spec fn next_block_check(v: ChainV, b: BlockV) -> Result<(), CoreErrorV> {
    if v.chain.len() == 0 {
        Err(CoreErrorV::EmptyChain)
    } else {
        let latest = v.chain.last();
        match integrity_spec(b, false) {
            Err(e) => Err(e),
            Ok(_) => if b.index != latest.index + 1 {
                Err(CoreErrorV::InvalidBlockIndex { expected: (latest.index + 1) as u64, actual: b.index })
            } else if b.previous_hash != latest.hash {
                Err(CoreErrorV::InvalidPreviousHash { index: b.index })
            } else {
                match expected_difficulty(v, b.index) {
                    Err(e) => Err(e),
                    Ok(d) => if b.difficulty != d {
                        Err(CoreErrorV::InvalidBlockDifficulty { index: b.index, expected: d, actual: b.difficulty })
                    } else {
                        match apply_all(v, b.transactions, balances_spec(v)).1 {
                            Some(x) => Err(x),
                            None => Ok(()),
                        }
                    },
                }
            },
        }
    }
}

/// The checks of block `i` against the one before it.
pub open spec fn block_link_check(v: ChainV, i: int) -> Result<(), CoreErrorV> {
    let b = v.chain[i];
    match integrity_spec(b, i == 0) {
        Err(e) => Err(e),
        Ok(_) => if i == 0 {
            Ok(())
        } else {
            let prev = v.chain[i - 1];
            if b.index != prev.index + 1 {
                Err(CoreErrorV::InvalidBlockIndex { expected: (prev.index + 1) as u64, actual: b.index })
            } else if b.previous_hash != prev.hash {
                Err(CoreErrorV::InvalidPreviousHash { index: b.index })
            } else {
                match expected_difficulty(v, b.index) {
                    Err(e) => Err(e),
                    Ok(d) => if b.difficulty != d {
                        Err(CoreErrorV::InvalidBlockDifficulty { index: b.index, expected: d, actual: b.difficulty })
                    } else {
                        Ok(())
                    },
                }
            }
        },
    }
}

/// Checks block `i`, then replays its transactions on `bal`.
#[verifier::opaque]
pub open spec fn scan_next(v: ChainV, i: int, bal: Balances) -> (Balances, Option<CoreErrorV>) {
    match block_link_check(v, i) {
        Err(x) => (bal, Some(x)),
        Ok(_) => apply_all(v, v.chain[i].transactions, bal),
    }
}

/// Checks the first `n` blocks in order, each followed by its transactions.
pub open spec fn scan_chain(v: ChainV, n: int) -> (Balances, Option<CoreErrorV>)
    decreases n,
{
    if n <= 0 {
        (Map::empty(), None)
    } else {
        let (m, e) = scan_chain(v, n - 1);
        match e {
            Some(_) => (m, e),
            None => scan_next(v, n - 1, m),
        }
    }
}

/// Once an error stops the scan, longer prefixes end the same way.
pub proof fn lemma_scan_stops(v: ChainV, k: int, n: int)
    requires
        0 <= k <= n,
        scan_chain(v, k).1 is Some,
    ensures
        scan_chain(v, n) == scan_chain(v, k),
    decreases n - k,
{
    if n > k {
        lemma_scan_stops(v, k, n - 1);
    }
}

/// The check of a whole chain.
pub open spec fn chain_check(v: ChainV) -> Result<(), CoreErrorV> {
    if v.chain.len() == 0 {
        Err(CoreErrorV::EmptyChain)
    } else if v.chain[0].hash != genesis_spec().hash || v.chain[0] != genesis_spec() {
        Err(CoreErrorV::InvalidGenesisBlock)
    } else {
        match scan_chain(v, v.chain.len() as int).1 {
            Some(x) => Err(x),
            None => Ok(()),
        }
    }
}

// ---------------------------------------------------------------- transitions

/// Appends new events of a contract (nothing changes when there are none).
pub open spec fn with_events(evs: Seq<(Seq<char>, Seq<Seq<char>>)>, addr: Seq<char>, new: Seq<Seq<char>>) -> Seq<(Seq<char>, Seq<Seq<char>>)> {
    if new.len() == 0 { evs } else { put_entry(evs, addr, events_of(evs, addr) + new) }
}

/// Runs a contract transaction for good: its state and events are kept.
pub open spec fn contract_transition(v: ChainV, t: TransactionV) -> (ChainV, Result<(), CoreErrorV>) {
    match contract_run(v, t) {
        Err(e) => (v, Err(e)),
        Ok(None) => (v, Ok(())),
        Ok(Some(s)) => (
            ChainV { states: put_entry(v.states, t.to, s.vars), events: with_events(v.events, t.to, s.events), ..v },
            Ok(()),
        ),
    }
}

/// Runs a lending transaction for good on the chain's pool.
pub open spec fn defi_transition(v: ChainV, t: TransactionV) -> (ChainV, Result<(), CoreErrorV>) {
    match defi_decode(t) {
        Err(e) => (v, Err(e)),
        Ok(p) => {
            let (pool, r) = defi_apply(v.pool, p, t.timestamp);
            (ChainV { pool, ..v }, match r {
                Err(de) => Err(CoreErrorV::DefiExecutionFailed { tx_id: t.id, reason: defi_error_text(de) }),
                Ok(_) => Ok(()),
            })
        },
    }
}

/// What one confirmed transaction changes beyond balances.
pub open spec fn tx_transition(v: ChainV, t: TransactionV) -> (ChainV, Result<(), CoreErrorV>) {
    if is_contract_kind(t.kind) {
        contract_transition(v, t)
    } else if t.kind == TransactionKind::DefiAction {
        defi_transition(v, t)
    } else {
        (v, Ok(()))
    }
}

/// The transitions of the first `n` transactions, stopping at the first error.
pub open spec fn transitions(v: ChainV, txs: Seq<TransactionV>, n: int) -> (ChainV, Option<CoreErrorV>)
    decreases n,
{
    if n <= 0 {
        (v, None)
    } else {
        let (w, e) = transitions(v, txs, n - 1);
        match e {
            Some(_) => (w, e),
            None => match tx_transition(w, txs[n - 1]) {
                (w2, Ok(_)) => (w2, None),
                (w2, Err(x)) => (w2, Some(x)),
            },
        }
    }
}

/// Once an error stops the transitions, longer prefixes end the same way.
pub proof fn lemma_transitions_stop(v: ChainV, txs: Seq<TransactionV>, k: int, n: int)
    requires
        0 <= k <= n,
        transitions(v, txs, k).1 is Some,
    ensures
        transitions(v, txs, n) == transitions(v, txs, k),
    decreases n - k,
{
    if n > k {
        lemma_transitions_stop(v, txs, k, n - 1);
    }
}

/// Transitions change only contract state, contract events and the pool.
pub proof fn lemma_transitions_frame(v: ChainV, txs: Seq<TransactionV>, n: int)
    ensures
        ({
            let w = transitions(v, txs, n).0;
            w == ChainV { states: w.states, events: w.events, pool: w.pool, ..v }
        }),
    decreases n,
{
    if n > 0 {
        lemma_transitions_frame(v, txs, n - 1);
    }
}

/// The cached difficulty becomes the one the next height expects, when it can be computed.
pub open spec fn refresh_spec(v: ChainV) -> ChainV {
    if v.chain.len() == 0 {
        v
    } else {
        match expected_difficulty(v, (v.chain.last().index + 1) as u64) {
            Ok(d) => ChainV { difficulty: d, ..v },
            Err(_) => v,
        }
    }
}

/// The ids of a block's transactions.
pub open spec fn block_tx_ids(b: BlockV) -> Seq<Seq<char>> {
    b.transactions.map_values(|t: TransactionV| t.id)
}

/// The pending transactions whose id is not among `ids`, in order.
pub open spec fn unconfirmed(p: Seq<TransactionV>, ids: Seq<Seq<char>>) -> Seq<TransactionV>
    decreases p.len(),
{
    if p.len() == 0 {
        p
    } else {
        let r = unconfirmed(p.drop_last(), ids);
        if ids.contains(p.last().id) { r } else { r.push(p.last()) }
    }
}

/// Confirms `b` on top of the chain: the check, the transitions of its
/// transactions, the push and the difficulty refresh. On success the
/// pending transactions are left to the caller.
pub open spec fn confirm_spec(v: ChainV, b: BlockV) -> (ChainV, Result<(), CoreErrorV>) {
    match next_block_check(v, b) {
        Err(e) => (v, Err(e)),
        Ok(_) => {
            let (w, e) = transitions(v, b.transactions, b.transactions.len() as int);
            match e {
                Some(x) => (w, Err(x)),
                None => (refresh_spec(ChainV { chain: w.chain.push(b), ..w }), Ok(())),
            }
        },
    }
}

/// Appending a block received from a peer: confirmed, and its transactions
/// leave the pending pool.
pub open spec fn append_spec(v: ChainV, b: BlockV) -> (ChainV, Result<(), CoreErrorV>) {
    let (w, r) = confirm_spec(v, b);
    match r {
        Err(_) => (w, r),
        Ok(_) => (ChainV { pending: unconfirmed(w.pending, block_tx_ids(b)), ..w }, r),
    }
}

/// Committing a block mined from the pending pool: confirmed, and the pool emptied.
pub open spec fn commit_spec(v: ChainV, b: BlockV) -> (ChainV, Result<(), CoreErrorV>) {
    let (w, r) = confirm_spec(v, b);
    match r {
        Err(_) => (w, r),
        Ok(_) => (ChainV { pending: Seq::empty(), ..w }, r),
    }
}

/// What `unconfirmed` keeps: exactly the pending transactions whose id is
/// not among `ids`.
proof fn lemma_unconfirmed(p: Seq<TransactionV>, ids: Seq<Seq<char>>)
    ensures
        forall|t: TransactionV| #[trigger] unconfirmed(p, ids).contains(t) <==> p.contains(t) && !ids.contains(t.id),
    decreases p.len(),
{
    if p.len() > 0 {
        lemma_unconfirmed(p.drop_last(), ids);
        let r = unconfirmed(p.drop_last(), ids);
        assert forall|t: TransactionV| #[trigger] unconfirmed(p, ids).contains(t) <==> p.contains(t) && !ids.contains(t.id) by {
            assert(p == p.drop_last().push(p.last()));
            if p.contains(t) && !ids.contains(t.id) {
                let i = choose|i: int| 0 <= i < p.len() && p[i] == t;
                if i < p.len() - 1 {
                    assert(p.drop_last()[i] == t);
                    assert(r.contains(t));
                    if !ids.contains(p.last().id) {
                        let j = choose|j: int| 0 <= j < r.len() && r[j] == t;
                        assert(r.push(p.last())[j] == t);
                    }
                } else {
                    assert(!ids.contains(p.last().id));
                    assert(r.push(p.last())[r.len() as int] == t);
                }
            }
            if unconfirmed(p, ids).contains(t) {
                if r.contains(t) {
                    let j = choose|j: int| 0 <= j < p.drop_last().len() && p.drop_last()[j] == t;
                    assert(p[j] == t);
                } else {
                    let j = choose|j: int| 0 <= j < r.push(p.last()).len() && r.push(p.last())[j] == t;
                    if j < r.len() {
                        assert(r[j] == t);
                    }
                    assert(t == p.last());
                    assert(p[p.len() - 1] == t);
                }
            }
        }
    }
}

/// Appending a block received from a peer: when it is accepted, the chain
/// grows by exactly that block, and the pending pool keeps exactly the
/// transactions that block did not confirm.
pub proof fn law_append_confirms(v: ChainV, b: BlockV)
    requires
        append_spec(v, b).1 is Ok,
    ensures
        append_spec(v, b).0.chain == v.chain.push(b),
        forall|t: TransactionV| #[trigger] append_spec(v, b).0.pending.contains(t)
            <==> v.pending.contains(t) && !block_tx_ids(b).contains(t.id),
{
    lemma_transitions_frame(v, b.transactions, b.transactions.len() as int);
    lemma_unconfirmed(v.pending, block_tx_ids(b));
}

/// Committing a block mined from the pending pool: when it is accepted, the
/// chain grows by exactly that block and the pool is empty.
pub proof fn law_commit_clears_pool(v: ChainV, b: BlockV)
    requires
        commit_spec(v, b).1 is Ok,
    ensures
        commit_spec(v, b).0.chain == v.chain.push(b),
        commit_spec(v, b).0.pending.len() == 0,
{
    lemma_transitions_frame(v, b.transactions, b.transactions.len() as int);
}

/// A block the chain refuses leaves its blocks and pending pool as they were.
pub proof fn law_refused_block_keeps_chain(v: ChainV, b: BlockV)
    requires
        append_spec(v, b).1 is Err,
    ensures
        append_spec(v, b).0.chain == v.chain,
        append_spec(v, b).0.pending == v.pending,
{
    lemma_transitions_frame(v, b.transactions, b.transactions.len() as int);
}

// ---------------------------------------------------------------- validity kept

/// Whether the payload checks of `txs` give the same verdict on `w` as on `v`.
pub open spec fn same_verdicts(v: ChainV, w: ChainV, txs: Seq<TransactionV>) -> bool {
    forall|j: int| 0 <= j < txs.len() ==> #[trigger] payload_validation(w, txs[j]) == payload_validation(v, txs[j])
}

/// Whether every transaction of the chain of `v`, and of `b`, is checked
/// alike on `w` and on `v`.
pub open spec fn verdicts_kept(v: ChainV, w: ChainV, b: BlockV) -> bool {
    &&& forall|i: int| 0 <= i < v.chain.len() ==> #[trigger] same_verdicts(v, w, v.chain[i].transactions)
    &&& same_verdicts(v, w, b.transactions)
}

/// Whether a transaction carries neither a contract nor a lending action.
pub open spec fn plain_tx(t: TransactionV) -> bool {
    !is_contract_kind(t.kind) && t.kind != TransactionKind::DefiAction
}

/// Whether every transaction of `b` is plain.
pub open spec fn plain_block(b: BlockV) -> bool {
    forall|j: int| 0 <= j < b.transactions.len() ==> plain_tx(#[trigger] b.transactions[j])
}

/// Balances move alike on two views that check the transactions alike.
proof fn lemma_fold_same(v: ChainV, w: ChainV, txs: Seq<TransactionV>, n: int, bal: Balances)
    requires
        0 <= n <= txs.len(),
        same_verdicts(v, w, txs),
    ensures
        fold_balances(w, txs, n, bal) == fold_balances(v, txs, n, bal),
    decreases n,
{
    if n > 0 {
        lemma_fold_same(v, w, txs, n - 1, bal);
        assert(payload_validation(w, txs[n - 1]) == payload_validation(v, txs[n - 1]));
    }
}

/// The scan of a prefix of a chain whose whole scan ends without error
/// ends without error too.
proof fn lemma_scan_prefix(v: ChainV, k: int)
    requires
        0 <= k <= v.chain.len(),
        scan_chain(v, v.chain.len() as int).1 is None,
    ensures
        scan_chain(v, k).1 is None,
{
    if scan_chain(v, k).1 is Some {
        lemma_scan_stops(v, k, v.chain.len() as int);
    }
}

/// One step of a scan that ends without error: block `k - 1` passes its
/// link check and its transactions are replayed.
proof fn lemma_scan_step(v: ChainV, k: int)
    requires
        0 < k <= v.chain.len(),
        scan_chain(v, k).1 is None,
        scan_chain(v, k - 1).1 is None,
    ensures
        block_link_check(v, k - 1) is Ok,
        scan_chain(v, k) == apply_all(v, v.chain[k - 1].transactions, scan_chain(v, k - 1).0),
{
    reveal(scan_next);
}

/// What a chain that passes its check is made of: every block passes its
/// link check and sits at its own height, and the scan of its first `k`
/// blocks ends without error on the balances of those blocks.
proof fn lemma_valid_chain(v: ChainV, k: int)
    requires
        chain_check(v) is Ok,
        0 <= k <= v.chain.len(),
    ensures
        scan_chain(v, k).1 is None,
        scan_chain(v, k).0 == chain_balances(v, k),
        forall|i: int| 0 <= i < k ==> (#[trigger] v.chain[i]).index == i,
        forall|i: int| 0 <= i < k ==> #[trigger] block_link_check(v, i) is Ok,
    decreases k,
{
    lemma_scan_prefix(v, k);
    if k > 0 {
        lemma_valid_chain(v, k - 1);
        lemma_scan_step(v, k);
        let i = k - 1;
        assert(v.chain[i].index == i) by {
            if i == 0 {
                assert(v.chain[0] == genesis_spec());
            } else {
                assert(v.chain[i - 1].index == i - 1);
            }
        }
    }
}

/// Two views with the same difficulty settings and the same first blocks
/// expect the same difficulty at a height those blocks cover.
proof fn lemma_expected_same(v: ChainV, n: ChainV, h: u64)
    requires
        h <= v.chain.len(),
        v.chain.len() <= n.chain.len(),
        forall|i: int| 0 <= i < v.chain.len() ==> n.chain[i] == #[trigger] v.chain[i],
        n.initial_difficulty == v.initial_difficulty,
        n.difficulty_adjustment_interval == v.difficulty_adjustment_interval,
        n.target_block_time_secs == v.target_block_time_secs,
    ensures
        expected_difficulty(n, h) == expected_difficulty(v, h),
{
    if h >= 2 {
        assert(n.chain[h - 1] == v.chain[h - 1]);
        let interval = v.difficulty_adjustment_interval;
        if interval > 1 && h % interval == 0 && h >= interval {
            assert(n.chain[h - interval] == v.chain[h - interval]);
        }
    }
}

/// The scan of the old blocks reads the same on the grown view.
proof fn lemma_scan_same(v: ChainV, n: ChainV, b: BlockV, k: int)
    requires
        chain_check(v) is Ok,
        0 <= k <= v.chain.len(),
        n.chain == v.chain.push(b),
        n.initial_difficulty == v.initial_difficulty,
        n.difficulty_adjustment_interval == v.difficulty_adjustment_interval,
        n.target_block_time_secs == v.target_block_time_secs,
        verdicts_kept(v, n, b),
    ensures
        scan_chain(n, k) == scan_chain(v, k),
    decreases k,
{
    if k > 0 {
        lemma_scan_same(v, n, b, k - 1);
        lemma_valid_chain(v, v.chain.len() as int);
        let i = k - 1;
        assert(n.chain[i] == v.chain[i]);
        assert(v.chain[i].index == i);
        assert forall|j: int| 0 <= j < v.chain.len() implies n.chain[j] == #[trigger] v.chain[j] by {}
        lemma_expected_same(v, n, v.chain[i].index);
        if i > 0 {
            assert(n.chain[i - 1] == v.chain[i - 1]);
        }
        assert(block_link_check(n, i) == block_link_check(v, i));
        assert(same_verdicts(v, n, v.chain[i].transactions));
        let m = scan_chain(v, i).0;
        lemma_fold_same(v, n, v.chain[i].transactions, v.chain[i].transactions.len() as int, m);
        reveal(scan_next);
    }
}

/// A checked block confirmed on a chain that passes its check leaves a
/// chain that passes it, when the confirmed transactions are checked alike
/// before and after.
proof fn lemma_confirm_keeps_valid(v: ChainV, b: BlockV, n: ChainV)
    requires
        chain_check(v) is Ok,
        next_block_check(v, b) is Ok,
        n.chain == v.chain.push(b),
        n.initial_difficulty == v.initial_difficulty,
        n.difficulty_adjustment_interval == v.difficulty_adjustment_interval,
        n.target_block_time_secs == v.target_block_time_secs,
        verdicts_kept(v, n, b),
    ensures
        chain_check(n) is Ok,
{
    let len = v.chain.len() as int;
    lemma_valid_chain(v, len);
    lemma_scan_same(v, n, b, len);
    assert(n.chain[0] == v.chain[0]);
    assert(n.chain[len] == b);
    assert(n.chain[len - 1] == v.chain.last());
    assert(v.chain[len - 1].index == len - 1);
    assert forall|j: int| 0 <= j < v.chain.len() implies n.chain[j] == #[trigger] v.chain[j] by {}
    lemma_expected_same(v, n, b.index);
    assert(block_link_check(n, len) is Ok);
    lemma_fold_same(v, n, b.transactions, b.transactions.len() as int, balances_spec(v));
    reveal(scan_next);
    assert(scan_chain(n, len + 1).1 is None);
}

/// Plain transactions are checked alike on any two views.
proof fn lemma_plain_verdicts(v: ChainV, w: ChainV, txs: Seq<TransactionV>)
    requires
        forall|j: int| 0 <= j < txs.len() ==> plain_tx(#[trigger] txs[j]),
    ensures
        same_verdicts(v, w, txs),
{
    assert forall|j: int| 0 <= j < txs.len() implies #[trigger] payload_validation(w, txs[j]) == payload_validation(v, txs[j]) by {
        assert(plain_tx(txs[j]));
    }
}

/// A chain that passes its check still passes it after a block is accepted
/// on it, from a peer or from the miner, as long as the transactions it
/// holds are judged the same on the state the block leaves as before: a
/// contract run or lending action is checked again, on the state of the day.
pub proof fn law_accepted_block_keeps_chain_valid(v: ChainV, b: BlockV)
    requires
        chain_check(v) is Ok,
    ensures
        append_spec(v, b).1 is Ok && verdicts_kept(v, append_spec(v, b).0, b)
            ==> chain_check(append_spec(v, b).0) is Ok,
        commit_spec(v, b).1 is Ok && verdicts_kept(v, commit_spec(v, b).0, b)
            ==> chain_check(commit_spec(v, b).0) is Ok,
{
    lemma_transitions_frame(v, b.transactions, b.transactions.len() as int);
    if append_spec(v, b).1 is Ok && verdicts_kept(v, append_spec(v, b).0, b) {
        lemma_confirm_keeps_valid(v, b, append_spec(v, b).0);
    }
    if commit_spec(v, b).1 is Ok && verdicts_kept(v, commit_spec(v, b).0, b) {
        lemma_confirm_keeps_valid(v, b, commit_spec(v, b).0);
    }
}

/// A chain of plain transactions (no contract, no lending action) that
/// passes its check still passes it after a block of plain transactions is
/// accepted on it, from a peer or from the miner.
pub proof fn law_plain_block_keeps_chain_valid(v: ChainV, b: BlockV)
    requires
        chain_check(v) is Ok,
        forall|i: int| 0 <= i < v.chain.len() ==> plain_block(#[trigger] v.chain[i]),
        plain_block(b),
    ensures
        append_spec(v, b).1 is Ok ==> chain_check(append_spec(v, b).0) is Ok,
        commit_spec(v, b).1 is Ok ==> chain_check(commit_spec(v, b).0) is Ok,
{
    let a = append_spec(v, b).0;
    let c = commit_spec(v, b).0;
    assert forall|i: int| 0 <= i < v.chain.len() implies #[trigger] same_verdicts(v, a, v.chain[i].transactions) by {
        assert(plain_block(v.chain[i]));
        lemma_plain_verdicts(v, a, v.chain[i].transactions);
    }
    assert forall|i: int| 0 <= i < v.chain.len() implies #[trigger] same_verdicts(v, c, v.chain[i].transactions) by {
        assert(plain_block(v.chain[i]));
        lemma_plain_verdicts(v, c, v.chain[i].transactions);
    }
    lemma_plain_verdicts(v, a, b.transactions);
    lemma_plain_verdicts(v, c, b.transactions);
    law_accepted_block_keeps_chain_valid(v, b);
}

} // verus!
