//! What the REST service answers, apart from the transport: contract
//! compilation and runs, chain summaries, lookups in the pending pool and
//! in history, marketplace queries, and the diagnosis of the peer network.
//! Each operation returns its value or the status and message of its error.

use vstd::prelude::*;
use crate::blockchain::Blockchain;
use crate::block::{Block, BlockV};
use crate::bytecode::Opcode;
use crate::chain_codec::{decode_block, decode_transaction, parse_block, parse_tx};
use crate::chain_error::core_error_text;
use crate::chain_query::ApiError;
use crate::compiler::{compile, compile_spec, compile_result_view, compile_error_text, CompileError, OpcodeV};
use crate::ledger::{ChainV, expected_difficulty};
use crate::nft::{ListingStatus, NftError, NftErrorV, NftListing, NftMarketplace, NftToken, nft_error_text};
use crate::node::{api_is, core_status, map_core_error, map_storage_error, map_p2p_error, p2p_status, Node};
use crate::engine::{EnvelopeV, ProcessReport, SyncEngine, envelopes_view, with_queue, report_result, EngineView};
use crate::peer::{upsert_spec, nearest_ok, buckets_ok, distances_view, buckets_view, PeerDistance, DhtBucket};
use crate::p2p_error::{p2p_error_text, P2pErrorV};
use crate::transport::{OutboundFrame, TransportSessionPool, encode_outbound_frames, frames_spec, frames_view, pool_session, session_push_spec, stamped, SessionV};
use crate::codec::drain_spec;
use crate::queue::SequencedMessage;
use crate::text::{chars_of, trim, trim_chars, string_from_chars};
use crate::keyed::key_index;
use crate::runtime::{ExecutionReport, Runtime, VmError, VmState, run, vm_error_text, DEFAULT_STEP_LIMIT};
use crate::storage::{HistoryStore, StateStore, StorageError, storage_error_text};
use crate::text::{is_blank, is_blank_seq, dec_u64, dec_nat};
use crate::binary::{at, dec_str, get_str, get_u64, put_u64, enc_u64, enc_str, lemma_dec_str, lemma_dec_u64, lemma_enc_lens};
use crate::keyed::{KeyedMap, keys_unique, map_of};
use crate::ledger::{state_of, events_of};
use crate::node::{fields_bytes, pairs_bytes, texts_bytes, texts_items, decode_i64_from_le_bytes, CONTRACT_SNAPSHOT_FIELD, CONTRACT_EVENTS_FIELD};
use crate::chain_codec::enc_i64;
use crate::blockchain::texts_view;
use vstd::utf8::encode_utf8;
use vstd::bytes::spec_u64_from_le_bytes;
use crate::transaction::{Transaction, TransactionV, tx_check};
use crate::crypto::{Wallet, WalletKeyPair, create_wallet, wallet_spec};

verus! {

// ---------------------------------------------------------------- errors

/// The status a marketplace error gets: a missing token or listing is not
/// found, anything else a bad request.
pub open spec fn nft_status(e: NftErrorV) -> u16 {
    match e {
        NftErrorV::TokenNotFound { .. } | NftErrorV::ListingNotFound { .. } => 404,
        _ => 400,
    }
}

/// A marketplace error as an API error.
pub fn map_nft_error(error: &NftError) -> (r: ApiError)
    ensures
        r.status == nft_status(error@),
        r.message@ == nft_error_text(error@),
{
    let status: u16 = match error {
        NftError::TokenNotFound { .. } | NftError::ListingNotFound { .. } => 404,
        _ => 400,
    };
    ApiError { status, message: error.message() }
}

/// A compile error as an API error: a bad request.
pub fn map_vm_compile_error(error: &CompileError) -> (r: ApiError)
    ensures
        r.status == 400,
        r.message@ == compile_error_text(error@),
{
    ApiError { status: 400, message: error.message() }
}

/// A runtime error as an API error: a bad request.
pub fn map_vm_runtime_error(error: &VmError) -> (r: ApiError)
    ensures
        r.status == 400,
        r.message@ == vm_error_text(*error),
{
    ApiError { status: 400, message: error.message() }
}

// ---------------------------------------------------------------- contracts

/// The message for a blank contract source.
pub open spec fn empty_source_text() -> Seq<char> {
    "source 不能为空"@
}

/// Compiles a contract source sent to the service.
pub fn vm_compile_source(source: &str) -> (r: Result<Vec<Opcode>, ApiError>)
    ensures
        is_blank_seq(source@) ==> r is Err && api_is(r->Err_0, 400, empty_source_text()),
        !is_blank_seq(source@) ==> match compile_spec(source@) {
            Ok(p) => r is Ok && r->Ok_0@.map_values(|o: Opcode| o@) == p,
            Err(e) => r is Err && api_is(r->Err_0, 400, compile_error_text(e)),
        },
{
    if is_blank(source) {
        return Err(ApiError { status: 400, message: String::from_str("source 不能为空") });
    }
    match compile(source) {
        Ok(p) => Ok(p),
        Err(e) => Err(map_vm_compile_error(&e)),
    }
}

/// What running a contract source gives: the program's length, the run's
/// report and the runtime it leaves.
pub struct VmRun {
    pub instruction_count: usize,
    pub report: ExecutionReport,
    pub runtime: Runtime,
}

/// The state a fresh runtime starts from.
pub open spec fn empty_vm() -> VmState {
    VmState { stack: Seq::empty(), vars: Map::empty(), events: Seq::empty() }
}

/// The step limit of a run: the one asked for, else the default.
pub open spec fn vm_limit(max_steps: Option<usize>) -> int {
    match max_steps {
        Some(m) => m as int,
        None => DEFAULT_STEP_LIMIT as int,
    }
}

/// Whether `r` is what running `prog` (compiled to `p`) on a fresh runtime
/// under `limit` steps gives.
pub open spec fn vm_run_outcome(prog: Seq<Opcode>, limit: int, p: Seq<OpcodeV>, r: Result<VmRun, ApiError>) -> bool {
    &&& prog.map_values(|o: Opcode| o@) == p
    &&& match run(prog, empty_vm(), 0, 0, limit).1 {
        Ok(rep) => r is Ok && r->Ok_0.instruction_count == p.len() && r->Ok_0.report == rep
            && r->Ok_0.runtime.vm()@ == run(prog, empty_vm(), 0, 0, limit).0@,
        Err(e) => r is Err && api_is(r->Err_0, 400, vm_error_text(e)),
    }
}

/// Compiles a contract source sent to the service and runs it on a fresh
/// runtime, under `max_steps` steps (the default limit when absent).
pub fn vm_execute_source(source: &str, max_steps: Option<usize>) -> (r: Result<VmRun, ApiError>)
    ensures
        is_blank_seq(source@) ==> r is Err && api_is(r->Err_0, 400, empty_source_text()),
        !is_blank_seq(source@) && max_steps == Some(0usize) ==> r is Err && api_is(r->Err_0, 400, "max_steps 必须大于 0"@),
        !is_blank_seq(source@) && max_steps != Some(0usize) ==> match compile_spec(source@) {
            Err(e) => r is Err && api_is(r->Err_0, 400, compile_error_text(e)),
            Ok(p) => exists|prog: Seq<Opcode>| #[trigger] vm_run_outcome(prog, vm_limit(max_steps), p, r),
        },
{
    if is_blank(source) {
        return Err(ApiError { status: 400, message: String::from_str("source 不能为空") });
    }
    let limit = match max_steps {
        Some(m) => m,
        None => DEFAULT_STEP_LIMIT,
    };
    if limit == 0 {
        return Err(ApiError { status: 400, message: String::from_str("max_steps 必须大于 0") });
    }
    let program = match compile(source) {
        Ok(p) => p,
        Err(e) => { return Err(map_vm_compile_error(&e)); },
    };
    let mut runtime = Runtime::new();
    let ghost start = runtime.vm();
    proof { assert(start@ == empty_vm()@); }
    let res = runtime.execute_with_limit(program.as_slice(), limit);
    proof { lemma_run_from_same_view(program@, start, empty_vm(), limit as int); }
    let ghost pv = program@;
    let ghost p = compile_spec(source@)->Ok_0;
    let result = match res {
        Ok(report) => {
            let n = program.len();
            Ok(VmRun { instruction_count: n, report, runtime })
        },
        Err(e) => Err(map_vm_runtime_error(&e)),
    };
    proof { assert(vm_run_outcome(pv, vm_limit(max_steps), p, result)); }
    result
}

/// Runs from states with the same view end the same way.
proof fn lemma_run_from_same_view(prog: Seq<Opcode>, a: VmState, b: VmState, limit: int)
    requires
        a@ == b@,
    ensures
        run(prog, a, 0, 0, limit).0@ == run(prog, b, 0, 0, limit).0@,
        run(prog, a, 0, 0, limit).1 == run(prog, b, 0, 0, limit).1,
{
    assert(a == b);
}

// ---------------------------------------------------------------- chain summaries

/// The chain's summary.
#[derive(Debug, Clone, PartialEq, Eq)]
pub struct ChainInfo {
    pub chain_id: String,
    pub height: u64,
    pub latest_hash: String,
    pub difficulty: u32,
    pub next_block_expected_difficulty: u32,
    pub latest_block_difficulty: u32,
    pub target_block_time_secs: u64,
    pub difficulty_adjustment_interval: u64,
    pub pending_tx_count: usize,
    pub peer_count: usize,
}

/// The chain's difficulty settings.
#[derive(Debug, Clone, Copy, PartialEq, Eq)]
pub struct DifficultyInfo {
    pub height: u64,
    pub latest_block_difficulty: u32,
    pub next_block_expected_difficulty: u32,
    pub target_block_time_secs: u64,
    pub difficulty_adjustment_interval: u64,
}

/// The difficulty the block after the latest one must have, or why not.
pub open spec fn next_difficulty_spec(v: ChainV) -> Result<u32, crate::chain_error::CoreErrorV> {
    if v.chain.len() == 0 {
        Err(crate::chain_error::CoreErrorV::EmptyChain)
    } else {
        expected_difficulty(v, (v.chain.last().index + 1) as u64)
    }
}

/// The chain's summary, or the error of an empty chain or of a difficulty
/// that cannot be computed.
pub fn chain_info(chain: &Blockchain) -> (r: Result<ChainInfo, ApiError>)
    requires
        crate::blockchain::tip_below(chain@, 1),
    ensures
        match next_difficulty_spec(chain@) {
            Err(e) => r is Err && api_is(r->Err_0, core_status(e), core_error_text(e)),
            Ok(d) => r is Ok && {
                let i = r->Ok_0;
                let latest = chain@.chain.last();
                &&& i.chain_id@ == chain@.chain_id
                &&& i.height == latest.index
                &&& i.latest_hash@ == latest.hash
                &&& i.difficulty == d
                &&& i.next_block_expected_difficulty == d
                &&& i.latest_block_difficulty == latest.difficulty
                &&& i.target_block_time_secs == chain@.target_block_time_secs
                &&& i.difficulty_adjustment_interval == chain@.difficulty_adjustment_interval
                &&& i.pending_tx_count == chain@.pending.len()
                &&& i.peer_count == chain@.peers.len()
            },
        },
{
    proof { chain.lemma_view_fields(); }
    let latest = match chain.latest_block() {
        Err(e) => { return Err(map_core_error(&e)); },
        Ok(b) => b,
    };
    let next = match chain.next_block_expected_difficulty() {
        Err(e) => { return Err(map_core_error(&e)); },
        Ok(d) => d,
    };
    Ok(ChainInfo {
        chain_id: chain.chain_id.clone(),
        height: latest.index,
        latest_hash: latest.hash.clone(),
        difficulty: next,
        next_block_expected_difficulty: next,
        latest_block_difficulty: latest.difficulty,
        target_block_time_secs: chain.target_block_time_secs,
        difficulty_adjustment_interval: chain.difficulty_adjustment_interval,
        pending_tx_count: chain.pending_transactions.len(),
        peer_count: chain.peers.len(),
    })
}

/// The chain's difficulty settings, or the error of an empty chain or of a
/// difficulty that cannot be computed.
pub fn chain_difficulty(chain: &Blockchain) -> (r: Result<DifficultyInfo, ApiError>)
    requires
        crate::blockchain::tip_below(chain@, 1),
    ensures
        match next_difficulty_spec(chain@) {
            Err(e) => r is Err && api_is(r->Err_0, core_status(e), core_error_text(e)),
            Ok(d) => r == Ok::<DifficultyInfo, ApiError>(DifficultyInfo {
                height: chain@.chain.last().index,
                latest_block_difficulty: chain@.chain.last().difficulty,
                next_block_expected_difficulty: d,
                target_block_time_secs: chain@.target_block_time_secs,
                difficulty_adjustment_interval: chain@.difficulty_adjustment_interval,
            }),
        },
{
    proof { chain.lemma_view_fields(); }
    let latest = match chain.latest_block() {
        Err(e) => { return Err(map_core_error(&e)); },
        Ok(b) => b,
    };
    let next = match chain.next_block_expected_difficulty() {
        Err(e) => { return Err(map_core_error(&e)); },
        Ok(d) => d,
    };
    Ok(DifficultyInfo {
        height: latest.index,
        latest_block_difficulty: latest.difficulty,
        next_block_expected_difficulty: next,
        target_block_time_secs: chain.target_block_time_secs,
        difficulty_adjustment_interval: chain.difficulty_adjustment_interval,
    })
}

/// The height and pending count the readiness probe reports.
pub fn readiness(chain: &Blockchain) -> (r: Result<(u64, usize), ApiError>)
    ensures
        chain@.chain.len() == 0 ==> r is Err && api_is(r->Err_0, 500, core_error_text(crate::chain_error::CoreErrorV::EmptyChain)),
        chain@.chain.len() > 0 ==> r is Ok && r->Ok_0.0 == chain@.chain.last().index && r->Ok_0.1 == chain@.pending.len(),
{
    proof { chain.lemma_view_fields(); }
    match chain.latest_block() {
        Err(e) => Err(map_core_error(&e)),
        Ok(b) => Ok((b.index, chain.pending_transactions.len())),
    }
}

// ---------------------------------------------------------------- lookups

/// Where a transaction was found.
#[derive(Debug, Clone, Copy, PartialEq, Eq, Structural)]
pub enum TxSource {
    Pending,
    History,
}

/// What the history store's answer about a transaction gives: the
/// transaction its bytes hold, or why not.
pub fn history_transaction_answer(tx_id: &str, stored: Result<Option<Vec<u8>>, StorageError>) -> (r: Result<Transaction, ApiError>)
    ensures
        match stored {
            Err(e) => r is Err && api_is(r->Err_0, 500, storage_error_text(e)),
            Ok(None) => r is Err && api_is(r->Err_0, 404, "交易不存在: "@ + tx_id@),
            Ok(Some(raw)) => match parse_tx(raw@, 0) {
                Some((t, _)) => r is Ok && r->Ok_0@ == t,
                None => r is Err && api_is(r->Err_0, 500, "历史交易反序列化失败: bytes do not form a transaction"@),
            },
        },
{
    match stored {
        Err(e) => Err(map_storage_error(&e)),
        Ok(None) => {
            let mut m = String::from_str("交易不存在: ");
            m.append(tx_id);
            Err(ApiError { status: 404, message: m })
        },
        Ok(Some(raw)) => match decode_transaction(raw.as_slice()) {
            Some(t) => Ok(t),
            None => Err(ApiError { status: 500, message: String::from_str("历史交易反序列化失败: bytes do not form a transaction") }),
        },
    }
}

/// What the history store's answer about a block gives: the block its
/// bytes hold, or why not.
pub fn history_block_answer(block_hash: &str, stored: Result<Option<Vec<u8>>, StorageError>) -> (r: Result<Block, ApiError>)
    ensures
        match stored {
            Err(e) => r is Err && api_is(r->Err_0, 500, storage_error_text(e)),
            Ok(None) => r is Err && api_is(r->Err_0, 404, "区块不存在: "@ + block_hash@),
            Ok(Some(raw)) => match parse_block(raw@, 0) {
                Some((b, _)) => r is Ok && r->Ok_0@ == b,
                None => r is Err && api_is(r->Err_0, 500, "历史区块反序列化失败: bytes do not form a block"@),
            },
        },
{
    match stored {
        Err(e) => Err(map_storage_error(&e)),
        Ok(None) => {
            let mut m = String::from_str("区块不存在: ");
            m.append(block_hash);
            Err(ApiError { status: 404, message: m })
        },
        Ok(Some(raw)) => match decode_block(raw.as_slice()) {
            Some(b) => Ok(b),
            None => Err(ApiError { status: 500, message: String::from_str("历史区块反序列化失败: bytes do not form a block") }),
        },
    }
}

/// A block from history by its hash. A blank hash is refused; otherwise the
/// store is asked, and its answer read by `history_block_answer`.
pub fn history_block<H: HistoryStore>(history: &H, block_hash: &str) -> (r: Result<Block, ApiError>)
    ensures
        is_blank_seq(block_hash@) ==> r is Err && api_is(r->Err_0, 400, "block_hash 不能为空"@),
{
    if is_blank(block_hash) {
        return Err(ApiError { status: 400, message: String::from_str("block_hash 不能为空") });
    }
    history_block_answer(block_hash, history.get_block(block_hash))
}

/// A transaction from history by its id. A blank id is refused; otherwise
/// the store is asked, and its answer read by `history_transaction_answer`.
pub fn history_transaction<H: HistoryStore>(history: &H, tx_id: &str) -> (r: Result<Transaction, ApiError>)
    ensures
        is_blank_seq(tx_id@) ==> r is Err && api_is(r->Err_0, 400, "tx_id 不能为空"@),
{
    if is_blank(tx_id) {
        return Err(ApiError { status: 400, message: String::from_str("tx_id 不能为空") });
    }
    history_transaction_answer(tx_id, history.get_transaction(tx_id))
}

/// Whether some pending transaction has id `id`.
pub open spec fn pending_has(v: ChainV, id: Seq<char>) -> bool {
    exists|i: int| 0 <= i < v.pending.len() && #[trigger] v.pending[i].id == id
}

/// A transaction by its id: the pending pool first, then history. A blank
/// id is refused; when the pool has it, the first pending one with that id
/// is returned; otherwise the history store's answer is read by
/// `history_transaction_answer`.
pub fn query_transaction<H: HistoryStore>(chain: &Blockchain, history: &H, tx_id: &str) -> (r: Result<(TxSource, Transaction), ApiError>)
    ensures
        is_blank_seq(tx_id@) ==> r is Err && api_is(r->Err_0, 400, "tx_id 不能为空"@),
        !is_blank_seq(tx_id@) && pending_has(chain@, tx_id@) ==> r is Ok && r->Ok_0.0 == TxSource::Pending
            && exists|i: int| 0 <= i < chain@.pending.len() && chain@.pending[i].id == tx_id@ && r->Ok_0.1@ == chain@.pending[i]
                && (forall|j: int| 0 <= j < i ==> #[trigger] chain@.pending[j].id != tx_id@),
        !is_blank_seq(tx_id@) && !pending_has(chain@, tx_id@) ==> r is Ok ==> r->Ok_0.0 == TxSource::History,
{
    if is_blank(tx_id) {
        return Err(ApiError { status: 400, message: String::from_str("tx_id 不能为空") });
    }
    proof { chain.lemma_view_fields(); }
    match crate::chain_query::transaction_by_id(chain.pending_transactions.as_slice(), tx_id) {
        Some(t) => {
            proof {
                let i = choose|i: int| 0 <= i < chain.pending_transactions@.len() && chain.pending_transactions@[i].id@ == tx_id@
                    && t@ == chain.pending_transactions@[i]@
                    && (forall|j: int| 0 <= j < i ==> #[trigger] chain.pending_transactions@[j].id@ != tx_id@);
                assert(chain@.pending[i] == chain.pending_transactions@[i]@);
                assert forall|j: int| 0 <= j < i implies #[trigger] chain@.pending[j].id != tx_id@ by {
                    assert(chain@.pending[j] == chain.pending_transactions@[j]@);
                }
            }
            Ok((TxSource::Pending, t))
        },
        None => {
            proof {
                assert forall|i: int| 0 <= i < chain@.pending.len() implies #[trigger] chain@.pending[i].id != tx_id@ by {
                    assert(chain@.pending[i] == chain.pending_transactions@[i]@);
                }
            }
            match history_transaction_answer(tx_id, history.get_transaction(tx_id)) {
                Err(e) => Err(e),
                Ok(t) => Ok((TxSource::History, t)),
            }
        },
    }
}

/// What the state store's answer about a balance gives: the stored
/// balance, zero for an unknown account.
pub fn balance_answer(stored: Result<Option<u64>, StorageError>) -> (r: Result<u64, ApiError>)
    ensures
        match stored {
            Err(e) => r is Err && api_is(r->Err_0, 500, storage_error_text(e)),
            Ok(None) => r == Ok::<u64, ApiError>(0),
            Ok(Some(b)) => r == Ok::<u64, ApiError>(b),
        },
{
    match stored {
        Err(e) => Err(map_storage_error(&e)),
        Ok(None) => Ok(0),
        Ok(Some(b)) => Ok(b),
    }
}

/// The balance of an account from the state store. A blank address is
/// refused; otherwise the store's answer is read by `balance_answer`.
pub fn account_balance<S: StateStore>(store: &S, address: &str) -> (r: Result<u64, ApiError>)
    ensures
        is_blank_seq(address@) ==> r is Err && api_is(r->Err_0, 400, "address 不能为空"@),
{
    if is_blank(address) {
        return Err(ApiError { status: 400, message: String::from_str("address 不能为空") });
    }
    balance_answer(store.get_balance(address))
}

// ---------------------------------------------------------------- contract snapshots

/// Reads `n` name-number pairs at `p`.
pub open spec fn dec_pairs(d: Seq<u8>, p: int, n: nat) -> Option<(Seq<(Seq<char>, i64)>, int)>
    decreases n,
{
    if n == 0 {
        Some((Seq::empty(), p))
    } else {
        match dec_pairs(d, p, (n - 1) as nat) {
            None => None,
            Some((s, q)) => match dec_str(d, q) {
                None => None,
                Some((k, q2)) => match crate::binary::dec_u64(d, q2) {
                    None => None,
                    Some((x, q3)) => Some((s.push((k, x as i64)), q3)),
                },
            },
        }
    }
}

/// The pairs stored state variables hold: a count, then each name and number.
pub open spec fn snapshot_pairs(d: Seq<u8>) -> Option<Seq<(Seq<char>, i64)>> {
    match crate::binary::dec_u64(d, 0) {
        None => None,
        Some((n, q)) => match dec_pairs(d, q, n as nat) {
            None => None,
            Some((s, _)) => Some(s),
        },
    }
}

/// The map of a list of pairs, a later pair of a name replacing an earlier one.
pub open spec fn pairs_map(s: Seq<(Seq<char>, i64)>) -> Map<Seq<char>, i64>
    decreases s.len(),
{
    if s.len() == 0 { Map::empty() } else { pairs_map(s.drop_last()).insert(s.last().0, s.last().1) }
}

/// Reads `n` texts at `p`.
pub open spec fn dec_texts(d: Seq<u8>, p: int, n: nat) -> Option<(Seq<Seq<char>>, int)>
    decreases n,
{
    if n == 0 {
        Some((Seq::empty(), p))
    } else {
        match dec_texts(d, p, (n - 1) as nat) {
            None => None,
            Some((s, q)) => match dec_str(d, q) {
                None => None,
                Some((t, r)) => Some((s.push(t), r)),
            },
        }
    }
}

/// The texts stored events hold: a count, then each text.
pub open spec fn snapshot_texts(d: Seq<u8>) -> Option<Seq<Seq<char>>> {
    match crate::binary::dec_u64(d, 0) {
        None => None,
        Some((n, q)) => match dec_texts(d, q, n as nat) {
            None => None,
            Some((s, _)) => Some(s),
        },
    }
}

/// Once reading pairs fails, reading more fails too.
proof fn lemma_pairs_fail(d: Seq<u8>, p: int, k: nat, n: nat)
    requires
        k <= n,
        dec_pairs(d, p, k) is None,
    ensures
        dec_pairs(d, p, n) is None,
    decreases n - k,
{
    if n > k {
        lemma_pairs_fail(d, p, k, (n - 1) as nat);
    }
}

/// Once reading texts fails, reading more fails too.
proof fn lemma_texts_fail(d: Seq<u8>, p: int, k: nat, n: nat)
    requires
        k <= n,
        dec_texts(d, p, k) is None,
    ensures
        dec_texts(d, p, n) is None,
    decreases n - k,
{
    if n > k {
        lemma_texts_fail(d, p, k, (n - 1) as nat);
    }
}

/// Reads stored state variables.
pub fn decode_state_snapshot(raw: &[u8]) -> (r: Option<KeyedMap<i64>>)
    ensures
        match snapshot_pairs(raw@) {
            Some(s) => r is Some && r->Some_0@ == pairs_map(s),
            None => r is None,
        },
{
    let (n, q0) = match get_u64(raw, 0) {
        None => { return None; },
        Some(x) => x,
    };
    let mut m: KeyedMap<i64> = KeyedMap::new();
    let mut q = q0;
    let mut k: u64 = 0;
    let ghost mut s: Seq<(Seq<char>, i64)> = Seq::empty();
    while k < n
        invariant
            k <= n,
            crate::binary::dec_u64(raw@, 0) == Some((n, q0 as int)),
            dec_pairs(raw@, q0 as int, k as nat) == Some((s, q as int)),
            m@ == pairs_map(s),
        decreases n - k,
    {
        let (key, q2) = match get_str(raw, q) {
            None => {
                proof { lemma_pairs_fail(raw@, q0 as int, (k + 1) as nat, n as nat); }
                return None;
            },
            Some(x) => x,
        };
        let (x, q3) = match get_u64(raw, q2) {
            None => {
                proof { lemma_pairs_fail(raw@, q0 as int, (k + 1) as nat, n as nat); }
                return None;
            },
            Some(y) => y,
        };
        let ghost kv = key@;
        let v: i64 = #[verifier::truncate] (x as i64);
        m.insert(key, v);
        proof {
            let s0 = s;
            s = s.push((kv, v));
            assert(s.drop_last() =~= s0);
        }
        q = q3;
        k = k + 1;
    }
    Some(m)
}

/// Reads stored events.
pub fn decode_events_snapshot(raw: &[u8]) -> (r: Option<Vec<String>>)
    ensures
        match snapshot_texts(raw@) {
            Some(s) => r is Some && texts_view(r->Some_0@) == s,
            None => r is None,
        },
{
    let (n, q0) = match get_u64(raw, 0) {
        None => { return None; },
        Some(x) => x,
    };
    let mut out: Vec<String> = Vec::new();
    let mut q = q0;
    let mut k: u64 = 0;
    while k < n
        invariant
            k <= n,
            crate::binary::dec_u64(raw@, 0) == Some((n, q0 as int)),
            dec_texts(raw@, q0 as int, k as nat) == Some((texts_view(out@), q as int)),
        decreases n - k,
    {
        let (t, q2) = match get_str(raw, q) {
            None => {
                proof { lemma_texts_fail(raw@, q0 as int, (k + 1) as nat, n as nat); }
                return None;
            },
            Some(x) => x,
        };
        let ghost before = texts_view(out@);
        let ghost tv = t@;
        out.push(t);
        proof { assert(texts_view(out@) =~= before.push(tv)); }
        q = q2;
        k = k + 1;
    }
    Some(out)
}

/// Written pairs read back.
proof fn lemma_dec_pairs(d: Seq<u8>, p: int, s: Seq<(Seq<char>, i64)>)
    requires
        forall|i: int| 0 <= i < s.len() ==> encode_utf8((#[trigger] s[i]).0).len() <= u64::MAX,
        at(d, p, pairs_bytes(s)),
    ensures
        dec_pairs(d, p, s.len()) == Some((s, p + pairs_bytes(s).len())),
    decreases s.len(),
{
    if s.len() > 0 {
        let t = s.drop_last();
        let e = pairs_bytes(s);
        let head = pairs_bytes(t);
        let key = enc_str(s.last().0);
        let val = enc_i64(s.last().1);
        assert(e == head + key + val);
        lemma_enc_lens();
        assert(d.subrange(p, p + head.len()) =~= e.subrange(0, head.len() as int));
        assert(e.subrange(0, head.len() as int) =~= head);
        assert forall|i: int| 0 <= i < t.len() implies encode_utf8((#[trigger] t[i]).0).len() <= u64::MAX by {
            assert(t[i] == s[i]);
        }
        lemma_dec_pairs(d, p, t);
        let q = p + head.len();
        assert(s[s.len() - 1] == s.last());
        assert(d.subrange(q, q + key.len()) =~= e.subrange(head.len() as int, (head.len() + key.len()) as int));
        assert(e.subrange(head.len() as int, (head.len() + key.len()) as int) =~= key);
        lemma_dec_str(d, q, s.last().0);
        let q2 = q + key.len();
        assert(d.subrange(q2, q2 + 8) =~= e.subrange((head.len() + key.len()) as int, e.len() as int));
        assert(e.subrange((head.len() + key.len()) as int, e.len() as int) =~= enc_u64(s.last().1 as u64));
        lemma_dec_u64(d, q2, s.last().1 as u64);
        let v = s.last().1;
        assert((v as u64) as i64 == v) by (bit_vector);
        assert(t.push(s.last()) =~= s);
    }
}

/// Written texts read back.
proof fn lemma_dec_texts(d: Seq<u8>, p: int, s: Seq<Seq<char>>)
    requires
        forall|i: int| 0 <= i < s.len() ==> encode_utf8(#[trigger] s[i]).len() <= u64::MAX,
        at(d, p, texts_items(s)),
    ensures
        dec_texts(d, p, s.len()) == Some((s, p + texts_items(s).len())),
    decreases s.len(),
{
    if s.len() > 0 {
        let t = s.drop_last();
        let e = texts_items(s);
        let head = texts_items(t);
        let item = enc_str(s.last());
        assert(e == head + item);
        assert(d.subrange(p, p + head.len()) =~= e.subrange(0, head.len() as int));
        assert(e.subrange(0, head.len() as int) =~= head);
        assert forall|i: int| 0 <= i < t.len() implies encode_utf8(#[trigger] t[i]).len() <= u64::MAX by {
            assert(t[i] == s[i]);
        }
        lemma_dec_texts(d, p, t);
        let q = p + head.len();
        assert(s[s.len() - 1] == s.last());
        assert(d.subrange(q, q + item.len()) =~= e.subrange(head.len() as int, e.len() as int));
        assert(e.subrange(head.len() as int, e.len() as int) =~= item);
        lemma_dec_str(d, q, s.last());
        assert(t.push(s.last()) =~= s);
    }
}

/// Stored state variables read back: the bytes written for a list of
/// name-number pairs give the same pairs.
pub proof fn law_state_snapshot_roundtrip(s: Seq<(Seq<char>, i64)>)
    requires
        s.len() <= u64::MAX,
        forall|i: int| 0 <= i < s.len() ==> encode_utf8((#[trigger] s[i]).0).len() <= u64::MAX,
    ensures
        snapshot_pairs(fields_bytes(s)) == Some(s),
{
    let d = fields_bytes(s);
    lemma_enc_lens();
    assert(d.subrange(0, 8) =~= enc_u64(s.len() as u64));
    lemma_dec_u64(d, 0, s.len() as u64);
    assert(d.subrange(8, 8 + pairs_bytes(s).len() as int) =~= pairs_bytes(s));
    lemma_dec_pairs(d, 8, s);
}

/// Stored events read back: the bytes written for a list of texts give the
/// same texts.
pub proof fn law_events_snapshot_roundtrip(s: Seq<Seq<char>>)
    requires
        s.len() <= u64::MAX,
        forall|i: int| 0 <= i < s.len() ==> encode_utf8(#[trigger] s[i]).len() <= u64::MAX,
    ensures
        snapshot_texts(texts_bytes(s)) == Some(s),
{
    let d = texts_bytes(s);
    lemma_enc_lens();
    assert(d.subrange(0, 8) =~= enc_u64(s.len() as u64));
    lemma_dec_u64(d, 0, s.len() as u64);
    assert(d.subrange(8, 8 + texts_items(s).len() as int) =~= texts_items(s));
    lemma_dec_texts(d, 8, s);
}

/// A list of pairs whose names are all different stands for the map of
/// its entries.
pub proof fn law_unique_pairs_map(s: Seq<(Seq<char>, i64)>)
    requires
        keys_unique(s),
    ensures
        pairs_map(s) == map_of(s),
    decreases s.len(),
{
    if s.len() > 0 {
        let t = s.drop_last();
        assert(keys_unique(t)) by {
            assert forall|a: int, b: int| 0 <= a < t.len() && 0 <= b < t.len() && a != b implies t[a].0 != t[b].0 by {
                assert(t[a] == s[a] && t[b] == s[b]);
            }
        }
        law_unique_pairs_map(t);
        lemma_map_of_push(t, s.last());
        assert(t.push(s.last()) =~= s);
    }
}

/// Adding an entry with a new key at the end adds it to the map.
proof fn lemma_map_of_push(t: Seq<(Seq<char>, i64)>, e: (Seq<char>, i64))
    requires
        keys_unique(t.push(e)),
    ensures
        map_of(t.push(e)) == map_of(t).insert(e.0, e.1),
    decreases t.len(),
{
    let s = t.push(e);
    if t.len() == 0 {
        assert(s.drop_first() =~= Seq::<(Seq<char>, i64)>::empty());
        assert(map_of(s.drop_first()) == Map::<Seq<char>, i64>::empty());
        assert(map_of(t) == Map::<Seq<char>, i64>::empty());
        assert(s[0] == e);
        assert(map_of(s) =~= map_of(t).insert(e.0, e.1));
    } else {
        let u = t.drop_first();
        assert(s.drop_first() =~= u.push(e));
        assert(keys_unique(u.push(e))) by {
            assert forall|a: int, b: int| 0 <= a < u.push(e).len() && 0 <= b < u.push(e).len() && a != b
                implies u.push(e)[a].0 != u.push(e)[b].0 by {
                assert(u.push(e)[a] == s[a + 1] && u.push(e)[b] == s[b + 1]);
            }
        }
        lemma_map_of_push(u, e);
        assert(s[0] == t[0]);
        assert(t[0].0 != e.0) by {
            assert(s[s.len() - 1] == e);
        }
        assert(map_of(s) == map_of(u.push(e)).insert(t[0].0, t[0].1));
        assert(t.drop_first() =~= u);
        assert(map_of(t) == map_of(u).insert(t[0].0, t[0].1));
        assert(map_of(s) =~= map_of(t).insert(e.0, e.1));
    }
}

/// The state variables of a contract: those stored, else those the chain
/// holds (none for an unknown contract).
pub fn contract_state_answer(chain: &Blockchain, address: &str, stored: Result<Option<Vec<u8>>, StorageError>) -> (r: Result<KeyedMap<i64>, ApiError>)
    ensures
        match stored {
            Err(e) => r is Err && api_is(r->Err_0, 500, storage_error_text(e)),
            Ok(Some(raw)) => match snapshot_pairs(raw@) {
                Some(s) => r is Ok && r->Ok_0@ == pairs_map(s),
                None => r is Err && api_is(r->Err_0, 500, "合约状态反序列化失败: bytes do not form a contract state"@),
            },
            Ok(None) => r is Ok && r->Ok_0@ == state_of(chain@.states, address@),
        },
{
    match stored {
        Err(e) => Err(map_storage_error(&e)),
        Ok(Some(raw)) => match decode_state_snapshot(raw.as_slice()) {
            Some(m) => Ok(m),
            None => Err(ApiError { status: 500, message: String::from_str("合约状态反序列化失败: bytes do not form a contract state") }),
        },
        Ok(None) => match chain.contract_state_snapshot(address) {
            Some(m) => Ok(m),
            None => {
                let m: KeyedMap<i64> = KeyedMap::new();
                proof { assert(m@ =~= state_of(chain@.states, address@)); }
                Ok(m)
            },
        },
    }
}

/// The events of a contract: those stored, else those the chain holds.
pub fn contract_events_answer(chain: &Blockchain, address: &str, stored: Result<Option<Vec<u8>>, StorageError>) -> (r: Result<Vec<String>, ApiError>)
    ensures
        match stored {
            Err(e) => r is Err && api_is(r->Err_0, 500, storage_error_text(e)),
            Ok(Some(raw)) => match snapshot_texts(raw@) {
                Some(s) => r is Ok && texts_view(r->Ok_0@) == s,
                None => r is Err && api_is(r->Err_0, 500, "合约事件反序列化失败: bytes do not form contract events"@),
            },
            Ok(None) => r is Ok && texts_view(r->Ok_0@) == events_of(chain@.events, address@),
        },
{
    match stored {
        Err(e) => Err(map_storage_error(&e)),
        Ok(Some(raw)) => match decode_events_snapshot(raw.as_slice()) {
            Some(v) => Ok(v),
            None => Err(ApiError { status: 500, message: String::from_str("合约事件反序列化失败: bytes do not form contract events") }),
        },
        Ok(None) => Ok(chain.contract_events_snapshot(address)),
    }
}

/// The message for a contract field that is not there.
pub open spec fn missing_field_text(address: Seq<char>, field: Seq<char>) -> Seq<char> {
    "合约字段不存在: address="@ + address + ", field="@ + field
}

/// A contract field: the stored bytes (and their number when there are
/// eight), else the chain's value of the field with its bytes.
pub fn contract_field_answer(chain: &Blockchain, address: &str, field: &str, stored: Result<Option<Vec<u8>>, StorageError>) -> (r: Result<(Vec<u8>, Option<i64>), ApiError>)
    ensures
        match stored {
            Err(e) => r is Err && api_is(r->Err_0, 500, storage_error_text(e)),
            Ok(Some(raw)) => r is Ok && r->Ok_0.0@ == raw@
                && r->Ok_0.1 == (if raw@.len() == 8 { Some(spec_u64_from_le_bytes(raw@) as i64) } else { None::<i64> }),
            Ok(None) => {
                let vars = state_of(chain@.states, address@);
                if vars.contains_key(field@) {
                    r is Ok && r->Ok_0.0@ == enc_i64(vars[field@]) && r->Ok_0.1 == Some(vars[field@])
                } else {
                    r is Err && api_is(r->Err_0, 404, missing_field_text(address@, field@))
                }
            },
        },
{
    match stored {
        Err(e) => Err(map_storage_error(&e)),
        Ok(Some(raw)) => {
            let v = decode_i64_from_le_bytes(raw.as_slice());
            Ok((raw, v))
        },
        Ok(None) => {
            let found = match chain.contract_state_snapshot(address) {
                Some(m) => match m.get(field) {
                    Some(v) => Some(*v),
                    None => None,
                },
                None => None,
            };
            match found {
                Some(v) => {
                    let mut bytes: Vec<u8> = Vec::new();
                    put_u64(&mut bytes, v as u64);
                    proof { assert(bytes@ =~= enc_i64(v)); }
                    Ok((bytes, Some(v)))
                },
                None => {
                    let mut m = String::from_str("合约字段不存在: address=");
                    m.append(address);
                    m.append(", field=");
                    m.append(field);
                    Err(ApiError { status: 404, message: m })
                },
            }
        },
    }
}

/// A contract's state variables. A blank address is refused; otherwise the
/// stored snapshot is asked for and read by `contract_state_answer`.
pub fn contract_state<S: StateStore>(chain: &Blockchain, store: &S, address: &str) -> (r: Result<KeyedMap<i64>, ApiError>)
    ensures
        is_blank_seq(address@) ==> r is Err && api_is(r->Err_0, 400, "address 不能为空"@),
{
    if is_blank(address) {
        return Err(ApiError { status: 400, message: String::from_str("address 不能为空") });
    }
    contract_state_answer(chain, address, store.get_contract_state(address, CONTRACT_SNAPSHOT_FIELD))
}

/// A contract's events. A blank address is refused; otherwise the stored
/// events are asked for and read by `contract_events_answer`.
pub fn contract_events<S: StateStore>(chain: &Blockchain, store: &S, address: &str) -> (r: Result<Vec<String>, ApiError>)
    ensures
        is_blank_seq(address@) ==> r is Err && api_is(r->Err_0, 400, "address 不能为空"@),
{
    if is_blank(address) {
        return Err(ApiError { status: 400, message: String::from_str("address 不能为空") });
    }
    contract_events_answer(chain, address, store.get_contract_state(address, CONTRACT_EVENTS_FIELD))
}

/// A contract field. Blank names are refused; otherwise the stored field is
/// asked for and read by `contract_field_answer`.
pub fn contract_field<S: StateStore>(chain: &Blockchain, store: &S, address: &str, field: &str) -> (r: Result<(Vec<u8>, Option<i64>), ApiError>)
    ensures
        is_blank_seq(address@) || is_blank_seq(field@) ==> r is Err && api_is(r->Err_0, 400, "address 和 field 不能为空"@),
{
    if is_blank(address) || is_blank(field) {
        return Err(ApiError { status: 400, message: String::from_str("address 和 field 不能为空") });
    }
    contract_field_answer(chain, address, field, store.get_contract_state(address, field))
}

// ---------------------------------------------------------------- peers

/// Registers a peer by the trimmed id and address with the engine, and the
/// address with the chain's peer list; answers the engine's peer count.
pub fn register_peer_request(node: &mut Node, peer_id: &str, address: &str) -> (r: Result<usize, ApiError>)
    requires
        old(node).engine.wf(),
    ensures
        final(node).engine.wf(),
        is_blank_seq(peer_id@) || is_blank_seq(address@) ==> r is Err && api_is(r->Err_0, 400, "peer_id 和 address 不能为空"@)
            && final(node).chain@ == old(node).chain@ && final(node).engine@ == old(node).engine@,
        !is_blank_seq(peer_id@) && !is_blank_seq(address@) ==> r is Ok
            && final(node).engine@ == (crate::engine::EngineView {
                peers: upsert_spec(old(node).engine@.peers, trim(peer_id@), trim(address@)),
                queues: with_queue(old(node).engine@.queues, trim(peer_id@)),
                ..old(node).engine@
            })
            && final(node).chain@ == (ChainV {
                peers: if !is_blank_seq(trim(address@)) && !old(node).chain@.peers.contains(trim(address@)) {
                    old(node).chain@.peers.push(trim(address@))
                } else {
                    old(node).chain@.peers
                },
                ..old(node).chain@
            })
            && r->Ok_0 == final(node).engine@.peers.len(),
{
    if is_blank(peer_id) || is_blank(address) {
        return Err(ApiError { status: 400, message: String::from_str("peer_id 和 address 不能为空") });
    }
    let pv = chars_of(peer_id);
    let peer = string_from_chars(trim_chars(pv.as_slice()).as_slice());
    let av = chars_of(address);
    let addr = string_from_chars(trim_chars(av.as_slice()).as_slice());
    node.engine.register_peer(peer.as_str(), addr.as_str());
    let count = node.engine.peer_count();
    node.chain.add_peer(addr.as_str());
    Ok(count)
}

/// What feeding bytes from a peer to its transport session gives: how many
/// bytes came, what the engine did, and the frames of its replies.
pub struct FrameOutcome {
    pub bytes_received: usize,
    pub report: ProcessReport,
    pub frames: Vec<OutboundFrame>,
}

/// The answer to bytes fed to a transport session, given what the session
/// and engine did with them (`pushed`): the error of the session or of the
/// framing of the replies, or the count of bytes, the report and the frames.
pub open spec fn frame_answer(pushed: Result<(nat, Seq<EnvelopeV>), P2pErrorV>, received: nat, r: Result<FrameOutcome, ApiError>) -> bool {
    match pushed {
        Err(e) => r is Err && api_is(r->Err_0, p2p_status(e), p2p_error_text(e)),
        Ok((n, out)) => match frames_spec(out, out.len() as int) {
            Err(e) => r is Err && api_is(r->Err_0, p2p_status(e), p2p_error_text(e)),
            Ok(fs) => r is Ok
                && r->Ok_0.bytes_received == received
                && r->Ok_0.report.processed == n
                && envelopes_view(r->Ok_0.report.outbound@) == out
                && frames_view(r->Ok_0.frames@) == fs,
        },
    }
}

/// What feeding `bytes` to `session` on engine `e0` did, with `sms` the
/// numbered messages the bytes held: the session and engine it left, and
/// the answer `r`.
pub open spec fn frame_pushed(session: SessionV, e0: EngineView, bytes: Seq<u8>, sms: Seq<SequencedMessage>,
    session_after: SessionV, engine_after: EngineView, r: Result<FrameOutcome, ApiError>) -> bool {
    &&& drain_spec(session.buffered + bytes, session.max_frame_len).1 matches Ok(ms)
        ==> stamped(sms, ms, session.peer_id, session.next_sequence)
    &&& session_after == session_push_spec(session, e0, bytes, sms).0
    &&& engine_after == session_push_spec(session, e0, bytes, sms).1
    &&& frame_answer(session_push_spec(session, e0, bytes, sms).2, bytes.len(), r)
}

/// What feeding `bytes` from `peer` at `addr` did to the sessions `p0` and
/// engine `e0`: the peer's session exists (opened if it was not), and it,
/// the engine and the answer are what pushing the bytes gives.
pub open spec fn frame_done(p0: Seq<(Seq<char>, SessionV)>, e0: EngineView, peer: Seq<char>, addr: Seq<char>, bytes: Seq<u8>,
    p1: Seq<(Seq<char>, SessionV)>, e1: EngineView, r: Result<FrameOutcome, ApiError>) -> bool {
    &&& p1.len() == p0.len() + (if key_index(p0, peer) is Some { 0int } else { 1int })
    &&& key_index(p1, peer) is Some
    &&& exists|sms: Seq<SequencedMessage>| #[trigger] frame_pushed(pool_session(p0, peer, addr), e0, bytes, sms,
        p1[key_index(p1, peer)->0].1, e1, r)
}

/// Feeds bytes received from a peer (trimmed id and address) to its
/// transport session, which hands complete messages to the engine, and
/// frames the engine's replies.
pub fn transport_frame(engine: &mut SyncEngine, pool: &mut TransportSessionPool, peer_id: &str, address: &str, bytes: &[u8]) -> (r: Result<FrameOutcome, ApiError>)
    requires
        old(engine).wf(),
    ensures
        final(engine).wf(),
        is_blank_seq(peer_id@) || is_blank_seq(address@) ==> r is Err && api_is(r->Err_0, 400, "peer_id 和 address 不能为空"@)
            && final(engine)@ == old(engine)@ && final(pool)@ == old(pool)@,
        !is_blank_seq(peer_id@) && !is_blank_seq(address@) && bytes@.len() == 0 ==> r is Err && api_is(r->Err_0, 400, "bytes 不能为空"@)
            && final(engine)@ == old(engine)@ && final(pool)@ == old(pool)@,
        !is_blank_seq(peer_id@) && !is_blank_seq(address@) && bytes@.len() > 0
            ==> frame_done(old(pool)@, old(engine)@, trim(peer_id@), trim(address@), bytes@, final(pool)@, final(engine)@, r),
{
    if is_blank(peer_id) || is_blank(address) {
        return Err(ApiError { status: 400, message: String::from_str("peer_id 和 address 不能为空") });
    }
    if bytes.len() == 0 {
        return Err(ApiError { status: 400, message: String::from_str("bytes 不能为空") });
    }
    let pv = chars_of(peer_id);
    let peer = string_from_chars(trim_chars(pv.as_slice()).as_slice());
    let av = chars_of(address);
    let addr = string_from_chars(trim_chars(av.as_slice()).as_slice());
    let ghost (p0, e0) = (pool@, engine@);
    let pushed = pool.push_inbound_bytes(engine, peer.as_str(), addr.as_str(), bytes);
    let ghost pr = report_result(pushed);
    let ghost session = pool_session(p0, peer@, addr@);
    let ghost sms = choose|sms: Seq<SequencedMessage>|
        (drain_spec(session.buffered + bytes@, session.max_frame_len).1 matches Ok(ms)
            ==> stamped(sms, ms, session.peer_id, session.next_sequence))
        && (pool@[key_index(pool@, peer@)->0].1, engine@, pr) == #[trigger] session_push_spec(session, e0, bytes@, sms);
    proof {
        assert(session_push_spec(session, e0, bytes@, sms).2 == pr);
        assert(peer@ == trim(peer_id@));
        assert(addr@ == trim(address@));
        assert(pool@.len() == p0.len() + (if key_index(p0, peer@) is Some { 0int } else { 1int }));
        assert(key_index(pool@, peer@) is Some);
        assert(pool@[key_index(pool@, peer@)->0].1 == session_push_spec(session, e0, bytes@, sms).0);
        assert(engine@ == session_push_spec(session, e0, bytes@, sms).1);
    }
    let report = match pushed {
        Err(e) => {
            let r = Err(map_p2p_error(&e));
            proof {
                assert(frame_pushed(session, e0, bytes@, sms, pool@[key_index(pool@, peer@)->0].1, engine@, r));
                assert(frame_done(p0, e0, peer@, addr@, bytes@, pool@, engine@, r));
            }
            return r;
        },
        Ok(rep) => rep,
    };
    let frames = match encode_outbound_frames(report.outbound.as_slice()) {
        Err(e) => {
            let r = Err(map_p2p_error(&e));
            proof {
                assert(frame_pushed(session, e0, bytes@, sms, pool@[key_index(pool@, peer@)->0].1, engine@, r));
                assert(frame_done(p0, e0, peer@, addr@, bytes@, pool@, engine@, r));
            }
            return r;
        },
        Ok(f) => f,
    };
    let r = Ok(FrameOutcome { bytes_received: bytes.len(), report, frames });
    proof {
        assert(frame_pushed(session, e0, bytes@, sms, pool@[key_index(pool@, peer@)->0].1, engine@, r));
        assert(frame_done(p0, e0, peer@, addr@, bytes@, pool@, engine@, r));
    }
    r
}

/// The message for a diagnosis limit out of range.
pub open spec fn diagnose_limit_text() -> Seq<char> {
    "limit 必须在 1~64 之间"@
}

/// The limit of a network diagnosis: 8 when absent, else between 1 and 64.
pub fn check_diagnose_limit(limit: Option<u32>) -> (r: Result<u32, ApiError>)
    ensures
        match limit {
            None => r == Ok::<u32, ApiError>(8),
            Some(l) => if 1 <= l <= 64 { r == Ok::<u32, ApiError>(l) } else { r is Err && api_is(r->Err_0, 400, diagnose_limit_text()) },
        },
{
    let l = match limit {
        None => 8,
        Some(l) => l,
    };
    if l == 0 || l > 64 {
        return Err(ApiError { status: 400, message: String::from_str("limit 必须在 1~64 之间") });
    }
    Ok(l)
}

/// The advice of a network diagnosis, from what it counted: known peers,
/// connected ones, handshakes and discovery requests to send, and nearest
/// peers found.
pub open spec fn suggestions_spec(peer_count: nat, connected: nat, bootstrap: nat, discover: nat, nearest: nat) -> Seq<Seq<char>> {
    let s1 = if peer_count == 0 { seq!["当前没有已知节点，请先 register-peer 或配置 seed_nodes"@] } else { Seq::empty() };
    let s2 = if bootstrap > 0 { seq!["建议先发送 bootstrap 握手，共 "@ + dec_nat(bootstrap) + " 条待发送消息"@] } else { Seq::empty() };
    let s3 = if discover > 0 { seq!["建议随后发送 discover 请求，共 "@ + dec_nat(discover) + " 条待发送消息"@] } else { Seq::empty() };
    let s4 = if nearest == 0 { seq!["暂无最近邻结果，等待 nodes 响应后再继续诊断"@] } else { Seq::empty() };
    let s5 = if connected == 0 && peer_count > 0 { seq!["当前已知节点均未连接，可先执行 bootstrap 建立握手"@] } else { Seq::empty() };
    s1 + s2 + s3 + s4 + s5
}

/// `head`, the number, then `tail`.
fn count_text(head: &str, n: usize, tail: &str) -> (r: String)
    ensures
        r@ == head@ + dec_nat(n as nat) + tail@,
{
    let mut s = String::from_str(head);
    let d = dec_u64(n as u64);
    s.append(d.as_str());
    s.append(tail);
    s
}

/// The advice of a network diagnosis.
pub fn diagnose_suggestions(peer_count: usize, connected: usize, bootstrap: usize, discover: usize, nearest: usize) -> (r: Vec<String>)
    ensures
        texts_view(r@) == suggestions_spec(peer_count as nat, connected as nat, bootstrap as nat, discover as nat, nearest as nat),
{
    let mut out: Vec<String> = Vec::new();
    let ghost mut parts: Seq<Seq<char>> = Seq::empty();
    if peer_count == 0 {
        out.push(String::from_str("当前没有已知节点，请先 register-peer 或配置 seed_nodes"));
    }
    proof { assert(texts_view(out@) =~= (if peer_count == 0 { seq!["当前没有已知节点，请先 register-peer 或配置 seed_nodes"@] } else { Seq::<Seq<char>>::empty() })); }
    let ghost a1 = texts_view(out@);
    if bootstrap > 0 {
        out.push(count_text("建议先发送 bootstrap 握手，共 ", bootstrap, " 条待发送消息"));
    }
    proof { assert(texts_view(out@) =~= a1 + (if bootstrap > 0 { seq!["建议先发送 bootstrap 握手，共 "@ + dec_nat(bootstrap as nat) + " 条待发送消息"@] } else { Seq::<Seq<char>>::empty() })); }
    let ghost a2 = texts_view(out@);
    if discover > 0 {
        out.push(count_text("建议随后发送 discover 请求，共 ", discover, " 条待发送消息"));
    }
    proof { assert(texts_view(out@) =~= a2 + (if discover > 0 { seq!["建议随后发送 discover 请求，共 "@ + dec_nat(discover as nat) + " 条待发送消息"@] } else { Seq::<Seq<char>>::empty() })); }
    let ghost a3 = texts_view(out@);
    if nearest == 0 {
        out.push(String::from_str("暂无最近邻结果，等待 nodes 响应后再继续诊断"));
    }
    proof { assert(texts_view(out@) =~= a3 + (if nearest == 0 { seq!["暂无最近邻结果，等待 nodes 响应后再继续诊断"@] } else { Seq::<Seq<char>>::empty() })); }
    let ghost a4 = texts_view(out@);
    if connected == 0 && peer_count > 0 {
        out.push(String::from_str("当前已知节点均未连接，可先执行 bootstrap 建立握手"));
    }
    proof {
        assert(texts_view(out@) =~= a4 + (if connected == 0 && peer_count > 0 { seq!["当前已知节点均未连接，可先执行 bootstrap 建立握手"@] } else { Seq::<Seq<char>>::empty() }));
        assert(texts_view(out@) =~= suggestions_spec(peer_count as nat, connected as nat, bootstrap as nat, discover as nat, nearest as nat));
    }
    out
}

// ---------------------------------------------------------------- marketplace

/// A token by its id, or not found.
pub fn token_by_id(market: &NftMarketplace, token_id: &str) -> (r: Result<NftToken, ApiError>)
    ensures
        match key_index(market@.tokens, token_id@) {
            Some(i) => r is Ok && r->Ok_0@ == market@.tokens[i].1,
            None => r is Err && api_is(r->Err_0, 404, "NFT 不存在: token_id="@ + token_id@),
        },
{
    match market.token(token_id) {
        Ok(t) => Ok(t),
        Err(e) => Err(map_nft_error(&e)),
    }
}

/// A listing by its id, or not found.
pub fn listing_by_id(market: &NftMarketplace, listing_id: &str) -> (r: Result<NftListing, ApiError>)
    ensures
        match key_index(market@.listings, listing_id@) {
            Some(i) => r is Ok && r->Ok_0@ == market@.listings[i].1,
            None => r is Err && api_is(r->Err_0, 404, "挂单不存在: listing_id="@ + listing_id@),
        },
{
    match market.listing(listing_id) {
        Ok(l) => Ok(l),
        Err(e) => Err(map_nft_error(&e)),
    }
}

/// The tokens an owner holds, in the order they were minted.
pub fn owner_tokens(market: &NftMarketplace, owner: &str) -> (r: Result<Vec<NftToken>, ApiError>)
    ensures
        is_blank_seq(owner@) ==> r is Err && api_is(r->Err_0, 400, "owner 不能为空"@),
        !is_blank_seq(owner@) ==> r is Ok && r->Ok_0@.map_values(|t: NftToken| t@) == crate::nft::tokens_of(market@.tokens, owner@),
{
    if is_blank(owner) {
        return Err(ApiError { status: 400, message: String::from_str("owner 不能为空") });
    }
    Ok(market.owner_tokens(owner))
}

// ---------------------------------------------------------------- metrics

/// The counters the metrics page shows.
pub struct MetricValues {
    pub chain_id: String,
    pub chain_height: u64,
    pub pending_tx_count: usize,
    pub peer_count: usize,
    pub latest_block_difficulty: u32,
    pub next_block_expected_difficulty: u32,
}

/// The counters of the metrics page, or the error of an empty chain or of a
/// difficulty that cannot be computed.
pub fn metric_values(chain: &Blockchain) -> (r: Result<MetricValues, ApiError>)
    requires
        crate::blockchain::tip_below(chain@, 1),
    ensures
        match next_difficulty_spec(chain@) {
            Err(e) => r is Err && api_is(r->Err_0, core_status(e), core_error_text(e)),
            Ok(d) => r is Ok && {
                let m = r->Ok_0;
                &&& m.chain_id@ == chain@.chain_id
                &&& m.chain_height == chain@.chain.last().index
                &&& m.pending_tx_count == chain@.pending.len()
                &&& m.peer_count == chain@.peers.len()
                &&& m.latest_block_difficulty == chain@.chain.last().difficulty
                &&& m.next_block_expected_difficulty == d
            },
        },
{
    proof { chain.lemma_view_fields(); }
    let latest = match chain.latest_block() {
        Err(e) => { return Err(map_core_error(&e)); },
        Ok(b) => b,
    };
    let next = match chain.next_block_expected_difficulty() {
        Err(e) => { return Err(map_core_error(&e)); },
        Ok(d) => d,
    };
    Ok(MetricValues {
        chain_id: chain.chain_id.clone(),
        chain_height: latest.index,
        pending_tx_count: chain.pending_transactions.len(),
        peer_count: chain.peers.len(),
        latest_block_difficulty: latest.difficulty,
        next_block_expected_difficulty: next,
    })
}

/// One gauge: its help and type lines, then its sample.
pub open spec fn gauge(name: Seq<char>, help: Seq<char>, sample: Seq<char>) -> Seq<char> {
    "# HELP "@ + name + " "@ + help + "\n# TYPE "@ + name + " gauge\n"@ + sample + "\n"@
}

/// The metrics page in the Prometheus text format.
pub open spec fn metrics_spec(version: Seq<char>, chain_id: Seq<char>, height: u64, pending: nat, peers: nat, latest: u32, next: u32) -> Seq<char> {
    gauge("rustchain_up"@, "Whether rustchain api process is up."@, "rustchain_up 1"@)
    + gauge("rustchain_build_info"@, "Build info labeled by service version."@, "rustchain_build_info{version=\""@ + version + "\"} 1"@)
    + gauge("rustchain_chain_info"@, "Chain identity information."@, "rustchain_chain_info{chain_id=\""@ + chain_id + "\"} 1"@)
    + gauge("rustchain_chain_height"@, "Current best block height."@, "rustchain_chain_height "@ + dec_nat(height as nat))
    + gauge("rustchain_pending_tx_count"@, "Number of pending transactions."@, "rustchain_pending_tx_count "@ + dec_nat(pending))
    + gauge("rustchain_peer_count"@, "Number of connected peers."@, "rustchain_peer_count "@ + dec_nat(peers))
    + gauge("rustchain_difficulty"@, "Expected proof-of-work difficulty for next block."@, "rustchain_difficulty "@ + dec_nat(next as nat))
    + gauge("rustchain_latest_block_difficulty"@, "Difficulty recorded on latest block."@,
        "rustchain_latest_block_difficulty "@ + dec_nat(latest as nat))
}

/// Appends one gauge.
fn put_gauge(out: &mut String, name: &str, help: &str, sample: &str)
    ensures
        final(out)@ == old(out)@ + gauge(name@, help@, sample@),
{
    out.append("# HELP ");
    out.append(name);
    out.append(" ");
    out.append(help);
    out.append("\n# TYPE ");
    out.append(name);
    out.append(" gauge\n");
    out.append(sample);
    out.append("\n");
    proof { assert(out@ =~= old(out)@ + gauge(name@, help@, sample@)); }
}

/// `head` followed by a number.
fn numbered(head: &str, n: u64) -> (r: String)
    ensures
        r@ == head@ + dec_nat(n as nat),
{
    let mut s = String::from_str(head);
    let d = dec_u64(n);
    s.append(d.as_str());
    s
}

/// `head`, a label value, then `tail`.
fn labelled(head: &str, value: &str, tail: &str) -> (r: String)
    ensures
        r@ == head@ + value@ + tail@,
{
    let mut s = String::from_str(head);
    s.append(value);
    s.append(tail);
    s
}

/// The metrics page for the counters and the service version.
pub fn metrics_text(version: &str, m: &MetricValues) -> (r: String)
    ensures
        r@ == metrics_spec(version@, m.chain_id@, m.chain_height, m.pending_tx_count as nat, m.peer_count as nat,
            m.latest_block_difficulty, m.next_block_expected_difficulty),
{
    let mut out = String::new();
    put_gauge(&mut out, "rustchain_up", "Whether rustchain api process is up.", "rustchain_up 1");
    let b = labelled("rustchain_build_info{version=\"", version, "\"} 1");
    put_gauge(&mut out, "rustchain_build_info", "Build info labeled by service version.", b.as_str());
    let c = labelled("rustchain_chain_info{chain_id=\"", m.chain_id.as_str(), "\"} 1");
    put_gauge(&mut out, "rustchain_chain_info", "Chain identity information.", c.as_str());
    let h = numbered("rustchain_chain_height ", m.chain_height);
    put_gauge(&mut out, "rustchain_chain_height", "Current best block height.", h.as_str());
    let p = numbered("rustchain_pending_tx_count ", m.pending_tx_count as u64);
    put_gauge(&mut out, "rustchain_pending_tx_count", "Number of pending transactions.", p.as_str());
    let q = numbered("rustchain_peer_count ", m.peer_count as u64);
    put_gauge(&mut out, "rustchain_peer_count", "Number of connected peers.", q.as_str());
    let d = numbered("rustchain_difficulty ", m.next_block_expected_difficulty as u64);
    put_gauge(&mut out, "rustchain_difficulty", "Expected proof-of-work difficulty for next block.", d.as_str());
    let l = numbered("rustchain_latest_block_difficulty ", m.latest_block_difficulty as u64);
    put_gauge(&mut out, "rustchain_latest_block_difficulty", "Difficulty recorded on latest block.", l.as_str());
    proof {
        assert(out@ =~= metrics_spec(version@, m.chain_id@, m.chain_height, m.pending_tx_count as nat, m.peer_count as nat,
            m.latest_block_difficulty, m.next_block_expected_difficulty));
    }
    out
}

/// The metrics page when the counters cannot be read.
pub fn metrics_error_text(reason: &str) -> (r: String)
    ensures
        r@ == "# metrics_error\nrustchain_metrics_error{reason=\""@ + reason@ + "\"} 1\n"@,
{
    labelled("# metrics_error\nrustchain_metrics_error{reason=\"", reason, "\"} 1\n")
}

/// The peers closest to a target (trimmed), at most `limit` of them (8 when
/// absent, at most 64).
pub fn nearest_peers_request(engine: &SyncEngine, target_peer_id: &str, limit: Option<usize>) -> (r: Result<Vec<PeerDistance>, ApiError>)
    requires
        engine.wf(),
    ensures
        trim(target_peer_id@).len() == 0 ==> r is Err && api_is(r->Err_0, 400, "target_peer_id 不能为空"@),
        trim(target_peer_id@).len() > 0 ==> match limit {
            Some(l) if l == 0 || l > 64 => r is Err && api_is(r->Err_0, 400, "limit 必须在 1~64 之间"@),
            _ => r is Ok && nearest_ok(engine@.peers, trim(target_peer_id@), match limit { Some(l) => l, None => 8usize },
                distances_view(r->Ok_0@)),
        },
{
    let tv = chars_of(target_peer_id);
    let target_chars = trim_chars(tv.as_slice());
    if target_chars.len() == 0 {
        return Err(ApiError { status: 400, message: String::from_str("target_peer_id 不能为空") });
    }
    let l = match limit {
        Some(l) => l,
        None => 8,
    };
    if l == 0 || l > 64 {
        return Err(ApiError { status: 400, message: String::from_str("limit 必须在 1~64 之间") });
    }
    let target = string_from_chars(target_chars.as_slice());
    Ok(engine.peers().nearest_peers(target.as_str(), l))
}

/// The peers grouped into DHT buckets for a target (trimmed), with
/// `bucket_count` buckets (8 when absent, at least 1).
pub fn dht_buckets_request(engine: &SyncEngine, target_peer_id: &str, bucket_count: Option<u8>) -> (r: Result<Vec<DhtBucket>, ApiError>)
    requires
        engine.wf(),
    ensures
        trim(target_peer_id@).len() == 0 ==> r is Err && api_is(r->Err_0, 400, "target_peer_id 不能为空"@),
        trim(target_peer_id@).len() > 0 ==> match bucket_count {
            Some(0u8) => r is Err && api_is(r->Err_0, 400, "bucket_count 必须大于 0"@),
            _ => r is Ok && buckets_ok(engine@.peers, trim(target_peer_id@), match bucket_count { Some(b) => b, None => 8u8 },
                buckets_view(r->Ok_0@)),
        },
{
    let tv = chars_of(target_peer_id);
    let target_chars = trim_chars(tv.as_slice());
    if target_chars.len() == 0 {
        return Err(ApiError { status: 400, message: String::from_str("target_peer_id 不能为空") });
    }
    let b = match bucket_count {
        Some(b) => b,
        None => 8,
    };
    if b == 0 {
        return Err(ApiError { status: 400, message: String::from_str("bucket_count 必须大于 0") });
    }
    let target = string_from_chars(target_chars.as_slice());
    Ok(engine.peers().dht_buckets(target.as_str(), b))
}

// ---------------------------------------------------------------- wallets and checks

/// Creates a wallet for the service: an empty password is refused.
pub fn wallet_create_request(password: &str) -> (r: Result<(Wallet, WalletKeyPair), ApiError>)
    ensures
        password@.len() == 0 ==> r is Err && api_is(r->Err_0, 400, "password 不能为空"@),
        password@.len() > 0 ==> r is Ok && exists|secret: Seq<u8>, salt: Seq<u8>| secret.len() == 32 && salt.len() == 32
            && #[trigger] wallet_spec(password@, secret, salt) == (r->Ok_0.0@, (r->Ok_0.1.address@, r->Ok_0.1.public_key@, r->Ok_0.1.private_key@)),
{
    if password.unicode_len() == 0 {
        return Err(ApiError { status: 400, message: String::from_str("password 不能为空") });
    }
    match create_wallet(password) {
        Ok(w) => Ok(w),
        Err(e) => Err(ApiError { status: 400, message: e.message() }),
    }
}

/// Checks a transaction's structure for the service: a bad request names
/// what is wrong.
pub fn verify_transaction_request(transaction: &Transaction) -> (r: Result<(), ApiError>)
    ensures
        match tx_check(transaction@) {
            Ok(_) => r is Ok,
            Err(e) => r is Err && api_is(r->Err_0, 400, core_error_text(e)),
        },
{
    match transaction.validate_basic() {
        Ok(_) => Ok(()),
        Err(e) => Err(ApiError { status: 400, message: e.message() }),
    }
}

} // verus!
