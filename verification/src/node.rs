//! A node: the blockchain with its synchronisation engine, how API errors
//! are classified, the chain summary peers exchange, seed nodes, and the
//! handling of peer messages that move the chain forward.

use vstd::prelude::*;
use crate::block::{Block, BlockV, genesis_spec, txs_view, copy_block};
use crate::transaction::{Transaction, TransactionV};
use crate::blockchain::{Blockchain, tip_below, mine_outcome, block_result, mined_candidate, fresh_chain, default_lending_config};
use crate::config::AppConfig;
use crate::chain_error::{CoreError, CoreErrorV, core_error_text};
use crate::chain_query::ApiError;
use crate::engine::{SyncEngine, EngineView, OutboundEnvelope, EnvelopeV, ProcessReport, envelopes_view, with_queue, env, incoming_spec, report_result};
use crate::ledger::{ChainV, expected_difficulty, add_tx_check, append_spec, commit_spec, confirm_spec, lemma_transitions_frame, balances_spec};
use crate::keyed::{keys_unique, has_key};
use crate::message::{ChainStatus, ChainStatusV, NetworkMessage, NetworkMessageV, lists_view, message_check, validation_text, copy_message};
use crate::queue::SequencedMessage;
use crate::chain_query::{page, blocks_from_spec, blocks_from};
use crate::p2p_error::{P2pError, P2pErrorV, p2p_error_text};
use crate::peer::{peer_index, PeerInfoV, upsert_spec, connected_only};
use vstd::bytes::{spec_u64_from_le_bytes, spec_u64_to_le_bytes, u64_from_le_bytes, u64_to_le_bytes};
use crate::binary::{enc_u64, enc_str, put_u64, put_str};
use crate::blockchain::texts_view;
use crate::chain_codec::{enc_i64, encode_block, encode_transaction, decode_block, decode_transaction, tx_bytes, block_bytes, parse_tx, parse_block};
use crate::keyed::KeyedMap;
use crate::storage::{HistoryStore, StateStore};
use crate::storage::{StorageError, storage_error_text, contract_key_spec};
use crate::text::{chars_of, trim, trim_chars, find_char, slice_chars, string_from_chars, dec_u64, dec_nat, first_index,
    lemma_first_index_bounds, str_eq, is_blank, is_blank_seq};

verus! {

// ---------------------------------------------------------------- errors

/// The HTTP status a chain error gets: a broken chain is a server fault,
/// anything else a bad request.
pub open spec fn core_status(e: CoreErrorV) -> u16 {
    match e {
        CoreErrorV::EmptyChain | CoreErrorV::InvalidGenesisBlock | CoreErrorV::InvalidBlockHash { .. }
        | CoreErrorV::InvalidPreviousHash { .. } | CoreErrorV::InvalidMerkleRoot { .. } | CoreErrorV::InvalidProofOfWork { .. }
        | CoreErrorV::InvalidBlockDifficulty { .. } | CoreErrorV::InvalidBlockIndex { .. } => 500,
        _ => 400,
    }
}

/// A chain error as an API error.
pub fn map_core_error(error: &CoreError) -> (r: ApiError)
    ensures
        r.status == core_status(error@),
        r.message@ == core_error_text(error@),
{
    let status: u16 = match error {
        CoreError::EmptyChain | CoreError::InvalidGenesisBlock | CoreError::InvalidBlockHash { .. }
        | CoreError::InvalidPreviousHash { .. } | CoreError::InvalidMerkleRoot { .. } | CoreError::InvalidProofOfWork { .. }
        | CoreError::InvalidBlockDifficulty { .. } | CoreError::InvalidBlockIndex { .. } => 500,
        _ => 400,
    };
    ApiError { status, message: error.message() }
}

/// A storage error as an API error: always a server fault.
pub fn map_storage_error(error: &StorageError) -> (r: ApiError)
    ensures
        r.status == 500,
        r.message@ == storage_error_text(*error),
{
    ApiError { status: 500, message: error.message() }
}

/// The HTTP status a peer-to-peer error gets: a bad message or argument is
/// the caller's fault, anything else the server's.
pub open spec fn p2p_status(e: P2pErrorV) -> u16 {
    match e {
        P2pErrorV::InvalidArgument(_) | P2pErrorV::InvalidMessage(_) => 400,
        _ => 500,
    }
}

/// A peer-to-peer error as an API error.
pub fn map_p2p_error(error: &P2pError) -> (r: ApiError)
    ensures
        r.status == p2p_status(error@),
        r.message@ == p2p_error_text(error@),
{
    let status: u16 = match error {
        P2pError::InvalidArgument(_) | P2pError::InvalidMessage(_) => 400,
        _ => 500,
    };
    ApiError { status, message: error.message() }
}

/// A server fault with a message.
pub fn internal_error(message: String) -> (r: ApiError)
    ensures
        r.status == 500,
        r.message@ == message@,
{
    ApiError { status: 500, message }
}

// ---------------------------------------------------------------- chain summary

/// The summary of a chain that peers exchange: its latest block (the
/// genesis block when empty), the difficulty the next block expects (the
/// cached one when it cannot be computed), and the genesis hash.
pub open spec fn status_spec(v: ChainV) -> ChainStatusV {
    let latest = if v.chain.len() > 0 { v.chain.last() } else { genesis_spec() };
    let next = if v.chain.len() > 0 {
        match expected_difficulty(v, (latest.index + 1) as u64) {
            Ok(d) => d,
            Err(_) => v.difficulty,
        }
    } else {
        v.difficulty
    };
    ChainStatusV {
        chain_id: v.chain_id,
        best_height: latest.index,
        best_hash: latest.hash,
        difficulty: next,
        genesis_hash: genesis_spec().hash,
    }
}

/// The summary of `chain` for peers.
pub fn chain_status_from_blockchain(chain: &Blockchain) -> (r: ChainStatus)
    requires
        tip_below(chain@, 1),
    ensures
        r@ == status_spec(chain@),
{
    proof { chain.lemma_view_fields(); }
    let genesis = Block::genesis();
    let (best_height, best_hash) = match chain.latest_block() {
        Ok(b) => (b.index, b.hash.clone()),
        Err(_) => (genesis.index, genesis.hash.clone()),
    };
    let difficulty = match chain.next_block_expected_difficulty() {
        Ok(d) => d,
        Err(_) => chain.difficulty,
    };
    ChainStatus {
        chain_id: chain.chain_id.clone(),
        best_height,
        best_hash,
        difficulty,
        genesis_hash: genesis.hash,
    }
}

// ---------------------------------------------------------------- seed nodes

/// A seed node entry: `peer_id@address`, or an address alone, whose peer
/// id is then `seed-<position + 1>`. Blank entries and blank halves are
/// skipped.
pub open spec fn seed_entry_spec(raw: Seq<char>, index: int) -> Option<(Seq<char>, Seq<char>)> {
    let value = trim(raw);
    if value.len() == 0 {
        None
    } else {
        let at = first_index(value, '@');
        if at < value.len() {
            let peer_id = trim(value.subrange(0, at));
            let address = trim(value.subrange(at + 1, value.len() as int));
            if peer_id.len() == 0 || address.len() == 0 { None } else { Some((peer_id, address)) }
        } else {
            Some(("seed-"@ + dec_nat((index + 1) as nat), value))
        }
    }
}

/// Reads a seed node entry (see `seed_entry_spec`).
pub fn parse_seed_node_entry(raw: &str, index: usize) -> (r: Option<(String, String)>)
    requires
        index < usize::MAX,
    ensures
        match seed_entry_spec(raw@, index as int) {
            Some((p, a)) => r is Some && r->Some_0.0@ == p && r->Some_0.1@ == a,
            None => r is None,
        },
{
    let chars = chars_of(raw);
    let value = trim_chars(chars.as_slice());
    if value.len() == 0 {
        return None;
    }
    let at = find_char(value.as_slice(), '@');
    proof { lemma_first_index_bounds(value@, '@'); }
    if at < value.len() {
        let left = slice_chars(value.as_slice(), 0, at);
        let right = slice_chars(value.as_slice(), at + 1, value.len());
        let peer_id = trim_chars(left.as_slice());
        let address = trim_chars(right.as_slice());
        if peer_id.len() == 0 || address.len() == 0 {
            return None;
        }
        return Some((string_from_chars(peer_id.as_slice()), string_from_chars(address.as_slice())));
    }
    let mut id = String::from_str("seed-");
    let n = dec_u64((index + 1) as u64);
    id.append(n.as_str());
    Some((id, string_from_chars(value.as_slice())))
}

/// Whether registering `peer` would add a peer (its id is new).
pub open spec fn is_new_peer(peers: Seq<PeerInfoV>, id: Seq<char>) -> bool {
    peer_index(peers, id) is None
}

/// Seeds `n` entries: the engine and chain peer list after them, and how
/// many new peers they brought.
pub open spec fn seed_fold(ev: EngineView, chain_peers: Seq<Seq<char>>, seeds: Seq<Seq<char>>, n: int) -> (EngineView, Seq<Seq<char>>, nat)
    decreases n,
{
    if n <= 0 || n > seeds.len() {
        (ev, chain_peers, 0)
    } else {
        let (e, cps, k) = seed_fold(ev, chain_peers, seeds, n - 1);
        match seed_entry_spec(seeds[n - 1], n - 1) {
            None => (e, cps, k),
            Some((id, addr)) => (
                EngineView { peers: upsert_spec(e.peers, id, addr), queues: with_queue(e.queues, id), ..e },
                if !is_blank_seq(addr) && !cps.contains(addr) { cps.push(addr) } else { cps },
                if is_new_peer(e.peers, id) { k + 1 } else { k },
            ),
        }
    }
}

/// Registering an existing id keeps the count; a new one adds one.
proof fn lemma_upsert_len(s: Seq<PeerInfoV>, id: Seq<char>, address: Seq<char>)
    ensures
        upsert_spec(s, id, address).len() == s.len() + (if is_new_peer(s, id) { 1int } else { 0int }),
{
}

/// Registers the seed nodes with the engine and the chain's peer list, and
/// returns how many new peers they brought.
pub fn bootstrap_seed_nodes(engine: &mut SyncEngine, chain: &mut Blockchain, seed_nodes: &[String]) -> (r: usize)
    requires
        old(engine).wf(),
    ensures
        final(engine).wf(),
        ({
            let (e, cps, k) = seed_fold(old(engine)@, old(chain)@.peers, seed_nodes@.map_values(|s: String| s@), seed_nodes@.len() as int);
            &&& final(engine)@ == e
            &&& final(chain)@ == (ChainV { peers: cps, ..old(chain)@ })
            &&& r == k
        }),
{
    let ghost sv = seed_nodes@.map_values(|s: String| s@);
    let mut imported: usize = 0;
    let mut index: usize = 0;
    while index < seed_nodes.len()
        invariant
            index <= seed_nodes@.len(),
            sv == seed_nodes@.map_values(|s: String| s@),
            engine.wf(),
            imported <= index,
            ({
                let (e, cps, k) = seed_fold(old(engine)@, old(chain)@.peers, sv, index as int);
                &&& engine@ == e
                &&& chain@ == (ChainV { peers: cps, ..old(chain)@ })
                &&& imported == k
            }),
        decreases seed_nodes.len() - index,
    {
        proof { assert(sv[index as int] == seed_nodes@[index as int]@); }
        match parse_seed_node_entry(seed_nodes[index].as_str(), index) {
            None => {},
            Some((peer_id, address)) => {
                let before_count = engine.peer_count();
                let ghost e0 = engine@;
                engine.register_peer(peer_id.as_str(), address.as_str());
                chain.add_peer(address.as_str());
                proof { lemma_upsert_len(e0.peers, peer_id@, address@); }
                if engine.peer_count() > before_count {
                    imported = imported + 1;
                }
            },
        }
        index = index + 1;
    }
    imported
}

// ---------------------------------------------------------------- helpers

/// Reads eight little-endian bytes as a signed number; `None` unless there are exactly eight.
pub fn decode_i64_from_le_bytes(raw: &[u8]) -> (r: Option<i64>)
    ensures
        raw@.len() != 8 ==> r is None,
        raw@.len() == 8 ==> r == Some((spec_u64_from_le_bytes(raw@) as i64)),
{
    if raw.len() != 8 {
        return None;
    }
    let v = u64_from_le_bytes(raw);
    Some(v as i64)
}

/// The request for the next batch of blocks from a peer that is ahead: up
/// to 128 blocks from the height after ours.
pub open spec fn next_request_spec(local_height: u64, peer_best: Option<u64>) -> Option<NetworkMessageV> {
    match peer_best {
        None => None,
        Some(h) => if h <= local_height {
            None
        } else {
            let remaining = h - local_height;
            Some(NetworkMessageV::GetBlocks {
                from_height: if local_height == u64::MAX { u64::MAX } else { (local_height + 1) as u64 },
                limit: if remaining < 128 { remaining as u32 } else { 128 },
            })
        },
    }
}

/// The best height the engine knows of `peer_id`.
pub open spec fn peer_best(ev: EngineView, peer_id: Seq<char>) -> Option<u64> {
    match peer_index(ev.peers, peer_id) {
        Some(i) => Some(ev.peers[i].best_height),
        None => None,
    }
}

/// What to ask `peer_id` next when it is ahead of the chain.
pub fn build_next_get_blocks_request(chain: &Blockchain, engine: &SyncEngine, peer_id: &str) -> (r: Result<Option<NetworkMessage>, CoreError>)
    requires
        engine.wf(),
    ensures
        chain@.chain.len() == 0 ==> r == Err::<Option<NetworkMessage>, CoreError>(CoreError::EmptyChain),
        chain@.chain.len() > 0 ==> r is Ok && match next_request_spec(chain@.chain.last().index, peer_best(engine@, peer_id@)) {
            Some(m) => r->Ok_0 is Some && r->Ok_0->Some_0@ == m,
            None => r->Ok_0 is None,
        },
{
    let local_height = match chain.latest_block() {
        Err(e) => { return Err(e); },
        Ok(b) => b.index,
    };
    let best = match engine.peers().get(peer_id) {
        Some(p) => p.best_height,
        None => { return Ok(None); },
    };
    if best <= local_height {
        return Ok(None);
    }
    let remaining = best - local_height;
    let limit: u32 = if remaining < 128 { remaining as u32 } else { 128 };
    let from_height = local_height.saturating_add(1);
    Ok(Some(NetworkMessage::GetBlocks { from_height, limit }))
}

/// Whether an envelope to `peer` carries a mempool answer.
pub open spec fn is_mempool_to(e: EnvelopeV, peer: Seq<char>) -> bool {
    e.target_peer_id == peer && e.message is Mempool
}

/// Whether an envelope to `peer` carries a blocks answer.
pub open spec fn is_blocks_to(e: EnvelopeV, peer: Seq<char>) -> bool {
    e.target_peer_id == peer && e.message is Blocks
}

/// The position of the first envelope satisfying `f`.
pub open spec fn first_where(out: Seq<EnvelopeV>, f: spec_fn(EnvelopeV) -> bool) -> Option<int> {
    if exists|i: int| 0 <= i < out.len() && f(out[i]) {
        Some(choose|i: int| 0 <= i < out.len() && f(out[i]) && forall|j: int| 0 <= j < i ==> !f(#[trigger] out[j]))
    } else {
        None
    }
}

/// Puts `m` for `peer` in place of the first envelope satisfying `f`, or appends it.
pub open spec fn replace_or_push(out: Seq<EnvelopeV>, peer: Seq<char>, m: NetworkMessageV, f: spec_fn(EnvelopeV) -> bool) -> Seq<EnvelopeV> {
    match first_where(out, f) {
        Some(i) => out.update(i, EnvelopeV { target_peer_id: out[i].target_peer_id, message: m }),
        None => out.push(EnvelopeV { target_peer_id: peer, message: m }),
    }
}

/// Puts `m` for `peer_id` in place of the first envelope to it carrying the
/// same kind of answer (`mempool` or blocks), or appends it.
fn replace_or_push_answer(outbound: &mut Vec<OutboundEnvelope>, peer_id: &str, m: NetworkMessage, mempool: bool)
    requires
        (mempool ==> m is Mempool) && (!mempool ==> m is Blocks),
    ensures
        envelopes_view(final(outbound)@) == replace_or_push(
            envelopes_view(old(outbound)@),
            peer_id@,
            m@,
            if mempool { |e: EnvelopeV| is_mempool_to(e, peer_id@) } else { |e: EnvelopeV| is_blocks_to(e, peer_id@) },
        ),
{
    let ghost f = if mempool { |e: EnvelopeV| is_mempool_to(e, peer_id@) } else { |e: EnvelopeV| is_blocks_to(e, peer_id@) };
    let ghost ov = envelopes_view(outbound@);
    let mut i: usize = 0;
    while i < outbound.len()
        invariant
            i <= outbound@.len(),
            ov == envelopes_view(outbound@),
            ov == envelopes_view(old(outbound)@),
            f == (if mempool { |e: EnvelopeV| is_mempool_to(e, peer_id@) } else { |e: EnvelopeV| is_blocks_to(e, peer_id@) }),
            forall|j: int| 0 <= j < i ==> !f(#[trigger] ov[j]),
        decreases outbound.len() - i,
    {
        let same_peer = str_eq(outbound[i].target_peer_id.as_str(), peer_id);
        let same_kind = if mempool {
            matches!(outbound[i].message, NetworkMessage::Mempool { .. })
        } else {
            matches!(outbound[i].message, NetworkMessage::Blocks { .. })
        };
        proof { assert(ov[i as int] == outbound@[i as int]@); }
        if same_peer && same_kind {
            proof {
                assert(f(ov[i as int]));
                let k = choose|k: int| 0 <= k < ov.len() && f(ov[k]) && forall|j: int| 0 <= j < k ==> !f(#[trigger] ov[j]);
                if k < i { assert(!f(ov[k])); }
                if k > i { assert(!f(ov[i as int])); }
                assert(first_where(ov, f) == Some(i as int));
            }
            let target = outbound[i].target_peer_id.clone();
            let ghost before = outbound@;
            outbound.set(i, OutboundEnvelope { target_peer_id: target, message: m });
            proof {
                assert(envelopes_view(outbound@) =~= ov.update(i as int, EnvelopeV { target_peer_id: ov[i as int].target_peer_id, message: m@ }));
            }
            return;
        }
        proof { assert(!f(ov[i as int])); }
        i = i + 1;
    }
    proof { assert(first_where(ov, f) is None); }
    outbound.push(OutboundEnvelope { target_peer_id: String::from_str(peer_id), message: m });
    proof { assert(envelopes_view(outbound@) =~= ov.push(EnvelopeV { target_peer_id: peer_id@, message: m@ })); }
}

/// Puts a mempool answer for `peer_id` in place of the first one, or appends it.
pub fn replace_or_push_mempool(outbound: &mut Vec<OutboundEnvelope>, peer_id: &str, transactions: Vec<Vec<u8>>)
    ensures
        envelopes_view(final(outbound)@) == replace_or_push(
            envelopes_view(old(outbound)@), peer_id@,
            NetworkMessageV::Mempool { transactions: lists_view(transactions@) },
            |e: EnvelopeV| is_mempool_to(e, peer_id@),
        ),
{
    replace_or_push_answer(outbound, peer_id, NetworkMessage::Mempool { transactions }, true);
}

/// Puts a blocks answer for `peer_id` in place of the first one, or appends it.
pub fn replace_or_push_blocks(outbound: &mut Vec<OutboundEnvelope>, peer_id: &str, blocks: Vec<Vec<u8>>)
    ensures
        envelopes_view(final(outbound)@) == replace_or_push(
            envelopes_view(old(outbound)@), peer_id@,
            NetworkMessageV::Blocks { blocks: lists_view(blocks@) },
            |e: EnvelopeV| is_blocks_to(e, peer_id@),
        ),
{
    replace_or_push_answer(outbound, peer_id, NetworkMessage::Blocks { blocks }, false);
}

// ---------------------------------------------------------------- persistence

/// Field under which a contract's whole state is stored.
pub const CONTRACT_SNAPSHOT_FIELD: &'static str = "__snapshot__";
/// Field under which a contract's events are stored.
pub const CONTRACT_EVENTS_FIELD: &'static str = "__events__";

/// The pairs of a name-to-number map one after another.
pub open spec fn pairs_bytes(s: Seq<(Seq<char>, i64)>) -> Seq<u8>
    decreases s.len(),
{
    if s.len() == 0 { Seq::empty() } else { pairs_bytes(s.drop_last()) + enc_str(s.last().0) + enc_i64(s.last().1) }
}

/// The bytes of a name-to-number map: the count, then each name and number.
pub open spec fn fields_bytes(s: Seq<(Seq<char>, i64)>) -> Seq<u8> {
    enc_u64(s.len() as u64) + pairs_bytes(s)
}

/// Texts one after another.
pub open spec fn texts_items(s: Seq<Seq<char>>) -> Seq<u8>
    decreases s.len(),
{
    if s.len() == 0 { Seq::empty() } else { texts_items(s.drop_last()) + enc_str(s.last()) }
}

/// The bytes of a list of texts: the count, then each text.
pub open spec fn texts_bytes(s: Seq<Seq<char>>) -> Seq<u8> {
    enc_u64(s.len() as u64) + texts_items(s)
}

/// The bytes of a contract's state variables, in their order.
pub fn encode_fields(fields: &KeyedMap<i64>) -> (r: Vec<u8>)
    ensures
        r@ == fields_bytes(fields.seq()),
{
    let mut out: Vec<u8> = Vec::new();
    put_u64(&mut out, fields.len() as u64);
    let ghost head = out@;
    let mut i: usize = 0;
    while i < fields.len()
        invariant
            i <= fields.seq().len(),
            out@ == head + pairs_bytes(fields.seq().subrange(0, i as int)),
        decreases fields.seq().len() - i,
    {
        let ghost before = out@;
        put_str(&mut out, fields.key_at(i).as_str());
        put_u64(&mut out, *fields.value_at(i) as u64);
        proof {
            let s = fields.seq().subrange(0, i + 1);
            assert(s.drop_last() =~= fields.seq().subrange(0, i as int));
            assert(s.last() == fields.seq()[i as int]);
            assert(out@ =~= head + pairs_bytes(s));
        }
        i = i + 1;
    }
    proof { assert(fields.seq().subrange(0, fields.seq().len() as int) =~= fields.seq()); }
    out
}

/// The bytes of a list of texts.
pub fn encode_texts(texts: &Vec<String>) -> (r: Vec<u8>)
    ensures
        r@ == texts_bytes(texts_view(texts@)),
{
    let ghost tv = texts_view(texts@);
    let mut out: Vec<u8> = Vec::new();
    put_u64(&mut out, texts.len() as u64);
    let ghost head = out@;
    let mut i: usize = 0;
    while i < texts.len()
        invariant
            i <= texts@.len(),
            tv == texts_view(texts@),
            out@ == head + texts_items(tv.subrange(0, i as int)),
        decreases texts.len() - i,
    {
        put_str(&mut out, texts[i].as_str());
        proof {
            let s = tv.subrange(0, i + 1);
            assert(s.drop_last() =~= tv.subrange(0, i as int));
            assert(s.last() == texts@[i as int]@);
            assert(out@ =~= head + texts_items(s));
        }
        i = i + 1;
    }
    proof { assert(tv.subrange(0, texts@.len() as int) =~= tv); }
    out
}

/// Transactions stored after writing the first `n` of `txs`, in order,
/// each under its id.
pub open spec fn tx_writes(m: Map<Seq<char>, Seq<u8>>, txs: Seq<TransactionV>, n: int) -> Map<Seq<char>, Seq<u8>>
    decreases n,
{
    if n <= 0 {
        m
    } else {
        tx_writes(m, txs, n - 1).insert(txs[n - 1].id, tx_bytes(txs[n - 1]))
    }
}

/// Balances stored after writing the first `n` entries, in order.
pub open spec fn balance_writes(m: Map<Seq<char>, u64>, s: Seq<(Seq<char>, u64)>, n: int) -> Map<Seq<char>, u64>
    decreases n,
{
    if n <= 0 {
        m
    } else {
        balance_writes(m, s, n - 1).insert(s[n - 1].0, s[n - 1].1)
    }
}

/// Fields stored after writing the first `n` variables of contract `c`, in
/// order, each as the eight little-endian bytes of its value.
pub open spec fn var_writes(m: Map<Seq<char>, Seq<u8>>, c: Seq<char>, s: Seq<(Seq<char>, i64)>, n: int) -> Map<Seq<char>, Seq<u8>>
    decreases n,
{
    if n <= 0 {
        m
    } else {
        var_writes(m, c, s, n - 1).insert(contract_key_spec(c, s[n - 1].0), spec_u64_to_le_bytes(s[n - 1].1 as u64))
    }
}

/// Fields stored after writing, for the first `n` contracts in order, each
/// variable and then the snapshot of all of them.
pub open spec fn state_writes(m: Map<Seq<char>, Seq<u8>>, s: Seq<(Seq<char>, KeyedMap<i64>)>, n: int) -> Map<Seq<char>, Seq<u8>>
    decreases n,
{
    if n <= 0 {
        m
    } else {
        let c = s[n - 1].0;
        let vars = s[n - 1].1.seq();
        var_writes(state_writes(m, s, n - 1), c, vars, vars.len() as int)
            .insert(contract_key_spec(c, CONTRACT_SNAPSHOT_FIELD@), fields_bytes(vars))
    }
}

/// Fields stored after writing the events of the first `n` contracts, in order.
pub open spec fn event_writes(m: Map<Seq<char>, Seq<u8>>, s: Seq<(Seq<char>, Vec<String>)>, n: int) -> Map<Seq<char>, Seq<u8>>
    decreases n,
{
    if n <= 0 {
        m
    } else {
        event_writes(m, s, n - 1).insert(contract_key_spec(s[n - 1].0, CONTRACT_EVENTS_FIELD@), texts_bytes(texts_view(s[n - 1].1@)))
    }
}

/// Stores a block under its hash and each of its transactions under its id,
/// stopping at the first store error.
pub fn persist_mined_block<H: HistoryStore>(history: &mut H, block: &Block) -> (r: Result<(), StorageError>)
    ensures
        r is Ok && old(history).tracks_contents() ==> final(history).tracks_contents()
            && final(history).stored_blocks() == old(history).stored_blocks().insert(block@.hash, block_bytes(block@))
            && final(history).stored_transactions()
                == tx_writes(old(history).stored_transactions(), block@.transactions, block@.transactions.len() as int),
{
    let bytes = encode_block(block);
    match history.put_block(block.hash.as_str(), bytes.as_slice()) {
        Err(e) => { return Err(e); },
        Ok(_) => {},
    }
    let ghost blocks = history.stored_blocks();
    let ghost txs0 = old(history).stored_transactions();
    let ghost tv = block@.transactions;
    let mut i: usize = 0;
    while i < block.transactions.len()
        invariant
            i <= block.transactions@.len(),
            tv == block@.transactions,
            tv.len() == block.transactions@.len(),
            forall|j: int| 0 <= j < tv.len() ==> #[trigger] tv[j] == block.transactions@[j]@,
            old(history).tracks_contents() ==> history.tracks_contents()
                && history.stored_blocks() == blocks
                && history.stored_transactions() == tx_writes(txs0, tv, i as int),
        decreases block.transactions.len() - i,
    {
        let tx = &block.transactions[i];
        let tx_bytes = encode_transaction(tx);
        match history.put_transaction(tx.id.as_str(), tx_bytes.as_slice()) {
            Err(e) => { return Err(e); },
            Ok(_) => {},
        }
        proof { assert(tv[i as int] == tx@); }
        i = i + 1;
    }
    Ok(())
}

/// Stores balances, each contract variable (as eight little-endian bytes)
/// with a snapshot of the contract's variables, and each contract's events,
/// stopping at the first store error.
pub fn persist_runtime_state<S: StateStore>(
    state: &mut S,
    balances: &KeyedMap<u64>,
    contract_states: &KeyedMap<KeyedMap<i64>>,
    contract_events: &KeyedMap<Vec<String>>,
) -> (r: Result<(), StorageError>)
    ensures
        r is Ok && old(state).tracks_contents() ==> final(state).tracks_contents()
            && final(state).stored_balances()
                == balance_writes(old(state).stored_balances(), balances.seq(), balances.seq().len() as int)
            && final(state).stored_fields() == event_writes(
                state_writes(old(state).stored_fields(), contract_states.seq(), contract_states.seq().len() as int),
                contract_events.seq(),
                contract_events.seq().len() as int,
            ),
{
    let ghost b0 = old(state).stored_balances();
    let ghost f0 = old(state).stored_fields();
    let mut i: usize = 0;
    while i < balances.len()
        invariant
            i <= balances.seq().len(),
            old(state).tracks_contents() ==> state.tracks_contents()
                && state.stored_balances() == balance_writes(b0, balances.seq(), i as int)
                && state.stored_fields() == f0,
        decreases balances.seq().len() - i,
    {
        match state.set_balance(balances.key_at(i).as_str(), *balances.value_at(i)) {
            Err(e) => { return Err(e); },
            Ok(_) => {},
        }
        i = i + 1;
    }
    let ghost b1 = state.stored_balances();
    let mut c: usize = 0;
    while c < contract_states.len()
        invariant
            c <= contract_states.seq().len(),
            old(state).tracks_contents() ==> state.tracks_contents()
                && state.stored_balances() == b1
                && state.stored_fields() == state_writes(f0, contract_states.seq(), c as int),
        decreases contract_states.seq().len() - c,
    {
        let contract = contract_states.key_at(c);
        let fields = contract_states.value_at(c);
        let ghost before = state.stored_fields();
        let mut f: usize = 0;
        while f < fields.len()
            invariant
                f <= fields.seq().len(),
                old(state).tracks_contents() ==> state.tracks_contents()
                    && state.stored_balances() == b1
                    && state.stored_fields() == var_writes(before, contract@, fields.seq(), f as int),
            decreases fields.seq().len() - f,
        {
            let value = u64_to_le_bytes(*fields.value_at(f) as u64);
            match state.set_contract_state(contract.as_str(), fields.key_at(f).as_str(), value.as_slice()) {
                Err(e) => { return Err(e); },
                Ok(_) => {},
            }
            f = f + 1;
        }
        let snapshot = encode_fields(fields);
        match state.set_contract_state(contract.as_str(), CONTRACT_SNAPSHOT_FIELD, snapshot.as_slice()) {
            Err(e) => { return Err(e); },
            Ok(_) => {},
        }
        c = c + 1;
    }
    let ghost f1 = state.stored_fields();
    let mut k: usize = 0;
    while k < contract_events.len()
        invariant
            k <= contract_events.seq().len(),
            old(state).tracks_contents() ==> state.tracks_contents()
                && state.stored_balances() == b1
                && state.stored_fields() == event_writes(f1, contract_events.seq(), k as int),
        decreases contract_events.seq().len() - k,
    {
        let raw = encode_texts(contract_events.value_at(k));
        match state.set_contract_state(contract_events.key_at(k).as_str(), CONTRACT_EVENTS_FIELD, raw.as_slice()) {
            Err(e) => { return Err(e); },
            Ok(_) => {},
        }
        k = k + 1;
    }
    Ok(())
}

/// Writing balances with unique keys in order leaves the old balances
/// updated by exactly those entries.
proof fn lemma_balance_writes(m: Map<Seq<char>, u64>, s: Seq<(Seq<char>, u64)>, n: int)
    requires
        keys_unique(s),
        0 <= n <= s.len(),
    ensures
        forall|j: int| 0 <= j < n ==> #[trigger] balance_writes(m, s, n).contains_key(s[j].0)
            && balance_writes(m, s, n)[s[j].0] == s[j].1,
        forall|k: Seq<char>| (forall|j: int| 0 <= j < n ==> s[j].0 != k) ==>
            (#[trigger] balance_writes(m, s, n).contains_key(k) == m.contains_key(k)
                && (m.contains_key(k) ==> balance_writes(m, s, n)[k] == m[k])),
    decreases n,
{
    if n > 0 {
        lemma_balance_writes(m, s, n - 1);
        let prev = balance_writes(m, s, n - 1);
        assert(balance_writes(m, s, n) == prev.insert(s[n - 1].0, s[n - 1].1));
        assert forall|j: int| 0 <= j < n implies #[trigger] balance_writes(m, s, n).contains_key(s[j].0)
            && balance_writes(m, s, n)[s[j].0] == s[j].1 by {
            if j < n - 1 {
                assert(s[j].0 != s[n - 1].0);
                assert(prev.contains_key(s[j].0) && prev[s[j].0] == s[j].1);
            }
        }
        assert forall|k: Seq<char>| (forall|j: int| 0 <= j < n ==> s[j].0 != k) implies
            (#[trigger] balance_writes(m, s, n).contains_key(k) == m.contains_key(k)
                && (m.contains_key(k) ==> balance_writes(m, s, n)[k] == m[k])) by {
            assert(s[n - 1].0 != k);
            assert(forall|j: int| 0 <= j < n - 1 ==> s[j].0 != k);
        }
    }
}

/// What a history store holds after a block was stored in it: the block's
/// bytes under its hash, and each of its transactions' bytes under its id.
pub open spec fn history_holds<H: HistoryStore>(before: H, after: H, b: BlockV) -> bool {
    before.tracks_contents() ==> {
        &&& after.tracks_contents()
        &&& after.stored_blocks() == before.stored_blocks().insert(b.hash, block_bytes(b))
        &&& after.stored_transactions() == tx_writes(before.stored_transactions(), b.transactions, b.transactions.len() as int)
    }
}

/// What a state store holds after the chain's state was stored in it: the
/// chain's balances over the old ones, and each contract's variables,
/// snapshot and events.
pub closed spec fn state_holds<S: StateStore>(before: S, after: S, chain: Blockchain) -> bool {
    before.tracks_contents() ==> {
        &&& after.tracks_contents()
        &&& after.stored_balances() == before.stored_balances().union_prefer_right(balances_spec(chain@))
        &&& after.stored_fields() == event_writes(
            state_writes(before.stored_fields(), chain.contract_states.seq(), chain.contract_states.seq().len() as int),
            chain.contract_events.seq(),
            chain.contract_events.seq().len() as int,
        )
    }
}

// ---------------------------------------------------------------- node

/// Whether `e` is the API error with this status and message.
pub open spec fn api_is(e: ApiError, status: u16, message: Seq<char>) -> bool {
    e.status == status && e.message@ == message
}

/// A node: its chain and its synchronisation engine.
pub struct Node {
    /// The blockchain.
    pub chain: Blockchain,
    /// The synchronisation engine.
    pub engine: SyncEngine,
}

/// The height at which no block can be appended without the next height overflowing.
pub open spec fn tip_too_high(v: ChainV) -> bool {
    v.chain.len() > 0 && v.chain.last().index >= u64::MAX - 1
}

/// The message when the chain has reached the highest height it can count.
pub open spec fn height_exhausted_text() -> Seq<char> {
    "区块高度已达上限"@
}

impl Node {
    /// The node a configuration describes: a new chain with the configured
    /// difficulty and reward, an engine named after the application and
    /// holding the chain's summary, and the configured seed nodes registered
    /// with both; also how many new peers the seeds brought.
    pub fn from_config(config: &AppConfig) -> (r: (Node, usize))
        ensures
            r.0.engine.wf(),
            ({
                let v = fresh_chain(config.mining_difficulty, config.mining_reward, default_lending_config());
                let e0 = EngineView {
                    local_peer_id: config.app_name@ + "-node"@,
                    local_status: status_spec(v),
                    peers: Seq::empty(),
                    queues: Seq::empty(),
                };
                let (e, cps, k) = seed_fold(e0, v.peers, config.seed_nodes@.map_values(|s: String| s@), config.seed_nodes@.len() as int);
                &&& r.0.engine@ == e
                &&& r.0.chain@ == (ChainV { peers: cps, ..v })
                &&& r.1 == k
            }),
    {
        let mut chain = Blockchain::new(config.mining_difficulty, config.mining_reward);
        let status = chain_status_from_blockchain(&chain);
        let mut id = config.app_name.clone();
        id.append("-node");
        let mut engine = SyncEngine::new(id.as_str(), status);
        let n = bootstrap_seed_nodes(&mut engine, &mut chain, config.seed_nodes.as_slice());
        (Node { chain, engine }, n)
    }
}

impl Node {
    /// Whether the chain can take another block.
    fn check_room(&self) -> (r: Result<(), ApiError>)
        ensures
            tip_too_high(self.chain@) ==> r is Err && api_is(r->Err_0, 500, height_exhausted_text()),
            !tip_too_high(self.chain@) ==> r is Ok && tip_below(self.chain@, 2),
    {
        match self.chain.latest_block() {
            Ok(b) => {
                if b.index >= u64::MAX - 1 {
                    return Err(internal_error(String::from_str("区块高度已达上限")));
                }
                Ok(())
            },
            Err(_) => Ok(()),
        }
    }

    /// Adds a submitted transaction to the pending pool and announces it to
    /// the connected peers: the new pending count and the announcements.
    pub fn submit_transaction(&mut self, transaction: Transaction) -> (r: Result<(usize, Vec<OutboundEnvelope>), ApiError>)
        ensures
            final(self).engine@ == old(self).engine@,
            match add_tx_check(old(self).chain@, transaction@) {
                Err(e) => r is Err && api_is(r->Err_0, core_status(e), core_error_text(e)) && final(self).chain@ == old(self).chain@,
                Ok(_) => r is Ok
                    && final(self).chain@ == (ChainV { pending: old(self).chain@.pending.push(transaction@), ..old(self).chain@ })
                    && r->Ok_0.0 == final(self).chain@.pending.len()
                    && envelopes_view(r->Ok_0.1@) == connected_only(old(self).engine@.peers).map_values(
                        |p: PeerInfoV| env(p.id, NetworkMessageV::NewTransaction { transaction: tx_bytes(transaction@) })),
            },
    {
        let tx_bytes_v = encode_transaction(&transaction);
        match self.chain.add_transaction(transaction) {
            Err(e) => { return Err(map_core_error(&e)); },
            Ok(_) => {},
        }
        proof { self.chain.lemma_view_fields(); }
        let count = self.chain.pending_transactions.len();
        let outbound = self.engine.broadcast_to_connected(NetworkMessage::NewTransaction { transaction: tx_bytes_v });
        Ok((count, outbound))
    }

    /// Stores a confirmed block with the chain's state, then tells the engine the new summary.
    fn persist_and_announce<H: HistoryStore, S: StateStore>(&mut self, history: &mut H, state: &mut S, block: &Block, prefix_history: &str, prefix_state: &str) -> (r: Result<(), ApiError>)
        requires
            tip_below(old(self).chain@, 1),
        ensures
            final(self).chain == old(self).chain,
            r is Ok ==> final(self).engine@ == (EngineView { local_status: status_spec(old(self).chain@), ..old(self).engine@ }),
            r is Ok ==> history_holds(*old(history), *final(history), block@),
            r is Ok ==> state_holds(*old(state), *final(state), final(self).chain),
            r is Err ==> final(self).engine@ == old(self).engine@ && r->Err_0.status == 500,
    {
        let status = chain_status_from_blockchain(&self.chain);
        let balances = self.chain.balances();
        let ghost s0 = *state;
        proof {
            use_type_invariant(&balances);
            balances.lemma_unique();
            lemma_balance_writes(s0.stored_balances(), balances.seq(), balances.seq().len() as int);
            assert(balance_writes(s0.stored_balances(), balances.seq(), balances.seq().len() as int)
                =~= s0.stored_balances().union_prefer_right(balances@)) by {
                let w = balance_writes(s0.stored_balances(), balances.seq(), balances.seq().len() as int);
                assert forall|k: Seq<char>| #[trigger] w.contains_key(k) == s0.stored_balances().union_prefer_right(balances@).contains_key(k) by {
                    if has_key(balances.seq(), k) {
                        let j = choose|j: int| 0 <= j < balances.seq().len() && #[trigger] balances.seq()[j].0 == k;
                        assert(w.contains_key(balances.seq()[j].0));
                    }
                }
                assert forall|k: Seq<char>| #[trigger] w.contains_key(k) implies w[k] == s0.stored_balances().union_prefer_right(balances@)[k] by {
                    if has_key(balances.seq(), k) {
                        let j = choose|j: int| 0 <= j < balances.seq().len() && #[trigger] balances.seq()[j].0 == k;
                        assert(w.contains_key(balances.seq()[j].0));
                    }
                }
            }
        }
        match persist_mined_block(history, block) {
            Err(e) => {
                let mut m = String::from_str(prefix_history);
                let t = e.message();
                m.append(t.as_str());
                return Err(internal_error(m));
            },
            Ok(_) => {},
        }
        match persist_runtime_state(state, &balances, &self.chain.contract_states, &self.chain.contract_events) {
            Err(e) => {
                let mut m = String::from_str(prefix_state);
                let t = e.message();
                m.append(t.as_str());
                return Err(internal_error(m));
            },
            Ok(_) => {},
        }
        self.engine.update_local_chain_status(status);
        Ok(())
    }

    /// Mines the pending pool for `miner_address`, stores the block and the
    /// chain's state, updates the engine's summary, and announces the block
    /// to connected peers.
    pub fn mine_block<H: HistoryStore, S: StateStore>(&mut self, history: &mut H, state: &mut S, miner_address: &str) -> (r: Result<(Block, Vec<OutboundEnvelope>), ApiError>)
        ensures
            is_blank_seq(miner_address@) ==> r is Err && api_is(r->Err_0, 400, "miner_address 不能为空"@)
                && final(self).chain@ == old(self).chain@ && final(self).engine@ == old(self).engine@,
            !is_blank_seq(miner_address@) && tip_too_high(old(self).chain@) ==> r is Err && api_is(r->Err_0, 500, height_exhausted_text())
                && final(self).chain@ == old(self).chain@ && final(self).engine@ == old(self).engine@,
            !is_blank_seq(miner_address@) && !tip_too_high(old(self).chain@) ==> exists|res: Result<BlockV, CoreErrorV>|
                #[trigger] mine_outcome(old(self).chain@, miner_address@, final(self).chain@, res) && match res {
                    Err(e) => r is Err && api_is(r->Err_0, core_status(e), core_error_text(e)) && final(self).engine@ == old(self).engine@,
                    Ok(b) => (r is Ok ==> r->Ok_0.0@ == b
                            && history_holds(*old(history), *final(history), b)
                            && state_holds(*old(state), *final(state), final(self).chain)
                            && final(self).engine@ == (EngineView { local_status: status_spec(final(self).chain@), ..old(self).engine@ })
                            && envelopes_view(r->Ok_0.1@) == connected_only(old(self).engine@.peers).map_values(
                                |p: PeerInfoV| env(p.id, NetworkMessageV::NewBlock { block: block_bytes(b) })))
                        && (r is Err ==> r->Err_0.status == 500 && final(self).engine@ == old(self).engine@),
                },
    {
        if is_blank(miner_address) {
            return Err(ApiError { status: 400, message: String::from_str("miner_address 不能为空") });
        }
        match self.check_room() {
            Err(e) => { return Err(e); },
            Ok(_) => {},
        }
        let mined = self.chain.mine_pending_transactions(miner_address);
        let ghost res = block_result(mined);
        let block = match mined {
            Err(e) => {
                proof { assert(mine_outcome(old(self).chain@, miner_address@, self.chain@, res)); }
                return Err(map_core_error(&e));
            },
            Ok(b) => b,
        };
        proof {
            assert(mine_outcome(old(self).chain@, miner_address@, self.chain@, res));
            lemma_mined_tip(old(self).chain@, miner_address@, self.chain@, block@);
        }
        let ghost e0 = self.engine@;
        match self.persist_and_announce(history, state, &block, "持久化历史数据失败: ", "持久化状态数据失败: ") {
            Err(e) => { return Err(e); },
            Ok(_) => {},
        }
        let bytes = encode_block(&block);
        let outbound = self.engine.broadcast_to_connected(NetworkMessage::NewBlock { block: bytes });
        Ok((block, outbound))
    }

    /// Appends a block received from a peer, stores it with the chain's
    /// state, and updates the engine's summary.
    pub fn accept_synced_block<H: HistoryStore, S: StateStore>(&mut self, history: &mut H, state: &mut S, block: Block) -> (r: Result<(), ApiError>)
        ensures
            tip_too_high(old(self).chain@) ==> r is Err && api_is(r->Err_0, 500, height_exhausted_text())
                && final(self).chain@ == old(self).chain@ && final(self).engine@ == old(self).engine@,
            !tip_too_high(old(self).chain@) ==> ({
                let (w, res) = append_spec(old(self).chain@, block@);
                &&& final(self).chain@ == w
                &&& match res {
                    Err(e) => r is Err && api_is(r->Err_0, core_status(e), core_error_text(e)) && final(self).engine@ == old(self).engine@,
                    Ok(_) => (r is Ok ==> final(self).engine@ == (EngineView { local_status: status_spec(w), ..old(self).engine@ })
                            && history_holds(*old(history), *final(history), block@)
                            && state_holds(*old(state), *final(state), final(self).chain))
                        && (r is Err ==> r->Err_0.status == 500 && final(self).engine@ == old(self).engine@),
                }
            }),
    {
        match self.check_room() {
            Err(e) => { return Err(e); },
            Ok(_) => {},
        }
        let kept = copy_block(&block);
        match self.chain.append_external_block(block) {
            Err(e) => { return Err(map_core_error(&e)); },
            Ok(_) => {},
        }
        proof { lemma_appended_tip(old(self).chain@, kept@); }
        self.persist_and_announce(history, state, &kept, "", "")
    }
}

/// After a successful commit, the latest block is the mined one, so the
/// chain still has room for one more height.
proof fn lemma_mined_tip(v: ChainV, miner: Seq<char>, f: ChainV, b: BlockV)
    requires
        !tip_too_high(v),
        mine_outcome(v, miner, f, Ok::<BlockV, CoreErrorV>(b)),
    ensures
        tip_below(f, 1),
{
    let d = expected_difficulty(v, (v.chain.last().index + 1) as u64)->Ok_0;
    let c = choose|c: BlockV| #[trigger] mined_candidate(v, miner, d, c) && {
        let (w, res) = commit_spec(v, c);
        &&& f == w
        &&& match res {
            Ok(_) => Ok::<BlockV, CoreErrorV>(b) == Ok::<BlockV, CoreErrorV>(c),
            Err(e) => Ok::<BlockV, CoreErrorV>(b) == Err::<BlockV, CoreErrorV>(e),
        }
    };
    lemma_confirm_tip(v, c);
}

/// After a successful append, the latest block is the appended one, so the
/// chain still has room for one more height.
proof fn lemma_appended_tip(v: ChainV, b: BlockV)
    requires
        !tip_too_high(v),
        append_spec(v, b).1 is Ok,
    ensures
        tip_below(append_spec(v, b).0, 1),
{
    lemma_confirm_tip(v, b);
}

/// A confirmed block becomes the latest block, one height above the old one.
proof fn lemma_confirm_tip(v: ChainV, b: BlockV)
    requires
        !tip_too_high(v),
        confirm_spec(v, b).1 is Ok,
    ensures
        confirm_spec(v, b).0.chain.len() > 0,
        confirm_spec(v, b).0.chain.last() == b,
        b.index < u64::MAX,
{
    lemma_transitions_frame(v, b.transactions, b.transactions.len() as int);
}

// ---------------------------------------------------------------- peer messages

/// The message when transaction bytes do not decode.
pub open spec fn tx_decode_text() -> Seq<char> {
    "反序列化交易失败: bytes do not form a transaction"@
}

/// The message when block bytes do not decode.
pub open spec fn block_decode_text() -> Seq<char> {
    "反序列化区块失败: bytes do not form a block"@
}

/// Decodes a transaction and adds it to the pending pool.
pub open spec fn add_decoded(v: ChainV, raw: Seq<u8>) -> (ChainV, Result<(), (u16, Seq<char>)>) {
    match parse_tx(raw, 0) {
        None => (v, Err((500u16, tx_decode_text()))),
        Some((t, _)) => match add_tx_check(v, t) {
            Err(e) => (v, Err((core_status(e), core_error_text(e)))),
            Ok(_) => (ChainV { pending: v.pending.push(t), ..v }, Ok(())),
        },
    }
}

/// Decodes and adds the first `n` transactions, stopping at the first failure.
pub open spec fn add_all_decoded(v: ChainV, ls: Seq<Seq<u8>>, n: int) -> (ChainV, Result<(), (u16, Seq<char>)>)
    decreases n,
{
    if n <= 0 || n > ls.len() {
        (v, Ok(()))
    } else {
        let (w, r) = add_all_decoded(v, ls, n - 1);
        match r {
            Err(_) => (w, r),
            Ok(_) => add_decoded(w, ls[n - 1]),
        }
    }
}

/// Whether `e` is the API error `(status, message)`.
pub open spec fn api_matches(e: ApiError, x: (u16, Seq<char>)) -> bool {
    e.status == x.0 && e.message@ == x.1
}

/// Decodes a block and appends it, when both succeed.
#[verifier::opaque]
pub open spec fn accept_one(v: ChainV, raw: Seq<u8>) -> Option<ChainV> {
    match parse_block(raw, 0) {
        None => None,
        Some((b, _)) => if tip_too_high(v) {
            None
        } else {
            match append_spec(v, b) {
                (w, Ok(_)) => Some(w),
                (_, Err(_)) => None,
            }
        },
    }
}

/// Decodes and appends the first `n` blocks when all of them succeed.
pub open spec fn accept_all(v: ChainV, ls: Seq<Seq<u8>>, n: int) -> Option<ChainV>
    decreases n,
{
    if n <= 0 || n > ls.len() {
        Some(v)
    } else {
        match accept_all(v, ls, n - 1) {
            None => None,
            Some(w) => accept_one(w, ls[n - 1]),
        }
    }
}

/// The bytes of blocks, in order.
pub open spec fn blocks_bytes(bs: Seq<BlockV>) -> Seq<Seq<u8>> {
    bs.map_values(|b: BlockV| block_bytes(b))
}

/// The bytes of transactions, in order.
pub open spec fn transactions_bytes(ts: Seq<TransactionV>) -> Seq<Seq<u8>> {
    ts.map_values(|t: TransactionV| tx_bytes(t))
}

/// The bytes of each block.
fn encode_blocks(blocks: &Vec<Block>) -> (r: Vec<Vec<u8>>)
    ensures
        lists_view(r@) == blocks_bytes(blocks@.map_values(|b: Block| b@)),
{
    let ghost bv = blocks@.map_values(|b: Block| b@);
    let mut out: Vec<Vec<u8>> = Vec::new();
    let mut i: usize = 0;
    while i < blocks.len()
        invariant
            i <= blocks@.len(),
            bv == blocks@.map_values(|b: Block| b@),
            lists_view(out@) == blocks_bytes(bv).subrange(0, i as int),
        decreases blocks.len() - i,
    {
        let ghost before = lists_view(out@);
        out.push(encode_block(&blocks[i]));
        proof {
            assert(lists_view(out@) =~= before.push(block_bytes(bv[i as int])));
            assert(blocks_bytes(bv).subrange(0, i + 1) =~= blocks_bytes(bv).subrange(0, i as int).push(block_bytes(bv[i as int])));
        }
        i = i + 1;
    }
    proof { assert(blocks_bytes(bv).subrange(0, blocks@.len() as int) =~= blocks_bytes(bv)); }
    out
}

/// The bytes of each transaction.
fn encode_transactions(txs: &Vec<Transaction>) -> (r: Vec<Vec<u8>>)
    ensures
        lists_view(r@) == transactions_bytes(txs_view(txs@)),
{
    let ghost tv = txs_view(txs@);
    let mut out: Vec<Vec<u8>> = Vec::new();
    let mut i: usize = 0;
    while i < txs.len()
        invariant
            i <= txs@.len(),
            tv == txs_view(txs@),
            lists_view(out@) == transactions_bytes(tv).subrange(0, i as int),
        decreases txs.len() - i,
    {
        let ghost before = lists_view(out@);
        out.push(encode_transaction(&txs[i]));
        proof {
            assert(lists_view(out@) =~= before.push(tx_bytes(tv[i as int])));
            assert(transactions_bytes(tv).subrange(0, i + 1) =~= transactions_bytes(tv).subrange(0, i as int).push(tx_bytes(tv[i as int])));
        }
        i = i + 1;
    }
    proof { assert(transactions_bytes(tv).subrange(0, txs@.len() as int) =~= transactions_bytes(tv)); }
    out
}

impl Node {
    /// Decodes a transaction and adds it to the pending pool.
    fn add_encoded_transaction(&mut self, raw: &Vec<u8>) -> (r: Result<(), ApiError>)
        ensures
            final(self).engine@ == old(self).engine@,
            ({
                let (w, res) = add_decoded(old(self).chain@, raw@);
                &&& final(self).chain@ == w
                &&& match res {
                    Ok(_) => r is Ok,
                    Err(x) => r is Err && api_matches(r->Err_0, x),
                }
            }),
    {
        let tx = match decode_transaction(raw.as_slice()) {
            None => {
                return Err(internal_error(String::from_str("反序列化交易失败: bytes do not form a transaction")));
            },
            Some(t) => t,
        };
        match self.chain.add_transaction(tx) {
            Err(e) => Err(map_core_error(&e)),
            Ok(_) => Ok(()),
        }
    }

    /// Decodes transactions and adds them in order, stopping at the first failure.
    #[verifier::spinoff_prover]
    #[verifier::rlimit(40)]
    fn add_encoded_transactions(&mut self, raws: &Vec<Vec<u8>>) -> (r: Result<(), ApiError>)
        ensures
            final(self).engine@ == old(self).engine@,
            ({
                let (w, res) = add_all_decoded(old(self).chain@, lists_view(raws@), raws@.len() as int);
                &&& final(self).chain@ == w
                &&& match res {
                    Ok(_) => r is Ok,
                    Err(x) => r is Err && api_matches(r->Err_0, x),
                }
            }),
    {
        let ghost lv = lists_view(raws@);
        let mut i: usize = 0;
        while i < raws.len()
            invariant
                i <= raws@.len(),
                lv == lists_view(raws@),
                self.engine@ == old(self).engine@,
                add_all_decoded(old(self).chain@, lv, i as int) == (self.chain@, Ok::<(), (u16, Seq<char>)>(())),
            decreases raws.len() - i,
        {
            proof { assert(lv[i as int] == raws@[i as int]@); }
            match self.add_encoded_transaction(&raws[i]) {
                Err(e) => {
                    proof { lemma_add_all_stops(old(self).chain@, lv, i + 1, raws@.len() as int); }
                    return Err(e);
                },
                Ok(_) => {},
            }
            i = i + 1;
        }
        Ok(())
    }

    /// Decodes a block received from a peer and accepts it.
    fn accept_encoded_block<H: HistoryStore, S: StateStore>(&mut self, history: &mut H, state: &mut S, raw: &Vec<u8>) -> (r: Result<(), ApiError>)
        ensures
            parse_block(raw@, 0) is None ==> r is Err && api_is(r->Err_0, 500, block_decode_text())
                && final(self).chain@ == old(self).chain@ && final(self).engine@ == old(self).engine@,
            parse_block(raw@, 0) matches Some((b, _)) ==> tip_too_high(old(self).chain@) ==> r is Err
                && final(self).chain@ == old(self).chain@ && final(self).engine@ == old(self).engine@,
            parse_block(raw@, 0) matches Some((b, _)) ==> !tip_too_high(old(self).chain@) ==> ({
                let (w, res) = append_spec(old(self).chain@, b);
                &&& final(self).chain@ == w
                &&& (r is Ok ==> res is Ok && final(self).engine@ == (EngineView { local_status: status_spec(w), ..old(self).engine@ }))
                &&& (r is Err ==> final(self).engine@ == old(self).engine@)
                &&& (res matches Err(e) ==> r is Err && api_is(r->Err_0, core_status(e), core_error_text(e)))
            }),
            r is Ok ==> accept_one(old(self).chain@, raw@) == Some(final(self).chain@),
            r is Ok ==> block_stored(*old(history), *final(history), *old(state), *final(state), raw@, final(self).chain),
    {
        proof { reveal(accept_one); }
        let block = match decode_block(raw.as_slice()) {
            None => {
                return Err(internal_error(String::from_str("反序列化区块失败: bytes do not form a block")));
            },
            Some(b) => b,
        };
        self.accept_synced_block(history, state, block)
    }

    /// Decodes and accepts blocks in order, stopping at the first failure.
    fn accept_encoded_blocks<H: HistoryStore, S: StateStore>(&mut self, history: &mut H, state: &mut S, raws: &Vec<Vec<u8>>) -> (r: Result<(), ApiError>)
        ensures
            r is Ok ==> accept_all(old(self).chain@, lists_view(raws@), raws@.len() as int) == Some(final(self).chain@),
            r is Ok ==> batch_stored(*old(history), *final(history), *old(state), *final(state), lists_view(raws@), old(self).chain@),
            r is Ok && raws@.len() > 0 ==> final(self).engine@ == (EngineView { local_status: status_spec(final(self).chain@), ..old(self).engine@ }),
            r is Ok && raws@.len() == 0 ==> final(self).engine@ == old(self).engine@,
            final(self).engine@.peers == old(self).engine@.peers,
            final(self).engine@.queues == old(self).engine@.queues,
            final(self).engine@.local_peer_id == old(self).engine@.local_peer_id,
    {
        let ghost lv = lists_view(raws@);
        let ghost c0 = old(self).chain@;
        let ghost mut hs: Seq<H> = seq![*history];
        let ghost mut ss: Seq<S> = seq![*state];
        let ghost mut cs: Seq<Blockchain> = Seq::empty();
        let mut i: usize = 0;
        while i < raws.len()
            invariant
                i <= raws@.len(),
                lv == lists_view(raws@),
                c0 == old(self).chain@,
                accept_all(old(self).chain@, lv, i as int) == Some(self.chain@),
                i > 0 ==> self.engine@ == (EngineView { local_status: status_spec(self.chain@), ..old(self).engine@ }),
                i == 0 ==> self.engine@ == old(self).engine@,
                batch_steps(hs, ss, cs, lv, c0, i as int),
                hs[0] == *old(history),
                ss[0] == *old(state),
                hs.last() == *history,
                ss.last() == *state,
            decreases raws.len() - i,
        {
            proof { assert(lv[i as int] == raws@[i as int]@); }
            let ghost (h_before, s_before) = (*history, *state);
            match self.accept_encoded_block(history, state, &raws[i]) {
                Err(e) => { return Err(e); },
                Ok(_) => {},
            }
            proof {
                let hs2 = hs.push(*history);
                let ss2 = ss.push(*state);
                let cs2 = cs.push(self.chain);
                assert forall|j: int| #![trigger cs2[j]] 0 <= j < i + 1 implies
                    block_stored(hs2[j], hs2[j + 1], ss2[j], ss2[j + 1], lv[j], cs2[j])
                        && accept_all(c0, lv, j + 1) == Some(cs2[j]@) by {
                    if j < i {
                        assert(cs2[j] == cs[j]);
                        assert(hs2[j] == hs[j] && hs2[j + 1] == hs[j + 1]);
                        assert(ss2[j] == ss[j] && ss2[j + 1] == ss[j + 1]);
                    } else {
                        assert(hs2[j] == h_before);
                        assert(ss2[j] == s_before);
                    }
                }
                hs = hs2;
                ss = ss2;
                cs = cs2;
            }
            i = i + 1;
        }
        Ok(())
    }
}

/// What the stores hold after a block received as `raw` was accepted and
/// stored, leaving the chain `chain`: the decoded block in the history,
/// the chain's state in the state store.
pub open spec fn block_stored<H: HistoryStore, S: StateStore>(h0: H, h1: H, s0: S, s1: S, raw: Seq<u8>, chain: Blockchain) -> bool {
    match parse_block(raw, 0) {
        Some((b, _)) => history_holds(h0, h1, b) && state_holds(s0, s1, chain),
        None => false,
    }
}

/// The first `n` steps of storing a batch of blocks: the stores before and
/// after each block (`hs`, `ss`) and the chain after it (`cs`).
pub open spec fn batch_steps<H: HistoryStore, S: StateStore>(hs: Seq<H>, ss: Seq<S>, cs: Seq<Blockchain>, raws: Seq<Seq<u8>>, c0: ChainV, n: int) -> bool {
    &&& 0 <= n <= raws.len()
    &&& hs.len() == n + 1
    &&& ss.len() == n + 1
    &&& cs.len() == n
    &&& forall|j: int| #![trigger cs[j]] 0 <= j < n ==>
        block_stored(hs[j], hs[j + 1], ss[j], ss[j + 1], raws[j], cs[j]) && accept_all(c0, raws, j + 1) == Some(cs[j]@)
}

/// What the stores hold after a batch of blocks received as `raws` was
/// accepted on the chain `c0`: each block in turn went to the history, and
/// the chain's state after it to the state store.
pub open spec fn batch_stored<H: HistoryStore, S: StateStore>(h0: H, h1: H, s0: S, s1: S, raws: Seq<Seq<u8>>, c0: ChainV) -> bool {
    exists|hs: Seq<H>, ss: Seq<S>, cs: Seq<Blockchain>| {
        &&& #[trigger] batch_steps(hs, ss, cs, raws, c0, raws.len() as int)
        &&& hs[0] == h0 && hs.last() == h1
        &&& ss[0] == s0 && ss.last() == s1
    }
}

/// What the stores hold after a peer's message was applied: a new block,
/// or each block of a batch, went to the history with the chain's state
/// after it; any other message leaves the stores as they were.
pub open spec fn payload_stored<H: HistoryStore, S: StateStore>(m: NetworkMessageV, h0: H, h1: H, s0: S, s1: S, c0: ChainV, chain: Blockchain) -> bool {
    match m {
        NetworkMessageV::NewBlock { block } => block_stored(h0, h1, s0, s1, block, chain),
        NetworkMessageV::Blocks { blocks } => batch_stored(h0, h1, s0, s1, blocks, c0),
        _ => h1 == h0 && s1 == s0,
    }
}

/// Once adding stops at a failure, longer prefixes end the same way.
proof fn lemma_add_all_stops(v: ChainV, ls: Seq<Seq<u8>>, k: int, n: int)
    requires
        0 <= k <= n <= ls.len(),
        add_all_decoded(v, ls, k).1 is Err,
    ensures
        add_all_decoded(v, ls, n) == add_all_decoded(v, ls, k),
    decreases n - k,
{
    if n > k {
        lemma_add_all_stops(v, ls, k, n - 1);
    }
}

/// What applying a peer's message payload does, given the chain `c0`, the
/// engine `e0` and the replies `o0` before it, and `c1`, `e1`, `o1`, `r`
/// after it: transactions join the pending pool, blocks are appended (and,
/// when some arrived and the peer is still ahead, the next batch is asked
/// for), and requests for the pending pool or for blocks are answered in
/// place of the engine's empty answer.
#[verifier::opaque]
pub open spec fn payload_done(
    m: NetworkMessageV, peer: Seq<char>,
    c0: ChainV, e0: EngineView, o0: Seq<EnvelopeV>,
    c1: ChainV, e1: EngineView, o1: Seq<EnvelopeV>,
    r: Result<(), ApiError>,
) -> bool {
    match m {
        NetworkMessageV::NewTransaction { transaction } => {
            let (w, res) = add_decoded(c0, transaction);
            &&& c1 == w && e1 == e0 && o1 == o0
            &&& match res { Ok(_) => r is Ok, Err(x) => r is Err && api_matches(r->Err_0, x) }
        },
        NetworkMessageV::Mempool { transactions } => {
            let (w, res) = add_all_decoded(c0, transactions, transactions.len() as int);
            &&& c1 == w && e1 == e0 && o1 == o0
            &&& match res { Ok(_) => r is Ok, Err(x) => r is Err && api_matches(r->Err_0, x) }
        },
        NetworkMessageV::GetMempool => {
            &&& c1 == c0 && e1 == e0 && r is Ok
            &&& o1 == replace_or_push(o0, peer, NetworkMessageV::Mempool { transactions: transactions_bytes(c0.pending) },
                |e: EnvelopeV| is_mempool_to(e, peer))
        },
        NetworkMessageV::GetBlocks { from_height, limit } => {
            &&& c1 == c0 && e1 == e0 && r is Ok
            &&& o1 == replace_or_push(o0, peer,
                NetworkMessageV::Blocks { blocks: blocks_bytes(page(blocks_from_spec(c0.chain, from_height, c0.chain.len() as int), 0, limit as int)) },
                |e: EnvelopeV| is_blocks_to(e, peer))
        },
        NetworkMessageV::NewBlock { block } => {
            &&& o1 == o0
            &&& e1.peers == e0.peers && e1.queues == e0.queues && e1.local_peer_id == e0.local_peer_id
            &&& (r is Ok ==> accept_one(c0, block) == Some(c1) && e1 == EngineView { local_status: status_spec(c1), ..e0 })
            &&& (parse_block(block, 0) is None ==> r is Err && api_is(r->Err_0, 500, block_decode_text()) && c1 == c0 && e1 == e0)
        },
        NetworkMessageV::Blocks { blocks } => {
            &&& e1.peers == e0.peers && e1.queues == e0.queues && e1.local_peer_id == e0.local_peer_id
            &&& (r is Ok ==> accept_all(c0, blocks, blocks.len() as int) == Some(c1)
                && (blocks.len() > 0 ==> e1 == EngineView { local_status: status_spec(c1), ..e0 }
                    && c1.chain.len() > 0
                    && o1 == match next_request_spec(c1.chain.last().index, peer_best(e0, peer)) {
                        Some(req) => o0.push(EnvelopeV { target_peer_id: peer, message: req }),
                        None => o0,
                    })
                && (blocks.len() == 0 ==> e1 == e0 && o1 == o0))
        },
        _ => c1 == c0 && e1 == e0 && o1 == o0 && r is Ok,
    }
}

/// What a peer's message does once it passed its check: the engine takes
/// `sm` (the message stamped on arrival), then, unless the engine failed,
/// the payload is applied to the chain and the engine's replies.
pub open spec fn incoming_done(
    e0: EngineView, peer: Seq<char>, address: Seq<char>, sm: SequencedMessage,
    c0: ChainV, c2: ChainV, e2: EngineView, m: NetworkMessageV, r: Result<ProcessReport, ApiError>,
) -> bool {
    let e1 = incoming_spec(e0, peer, address, sm).0;
    match incoming_spec(e0, peer, address, sm).1 {
        Err(pe) => r is Err && api_is(r->Err_0, p2p_status(pe), p2p_error_text(pe)) && c2 == c0 && e2 == e1,
        Ok(done) => match r {
            Ok(rep) => rep.processed == done.0
                && payload_done(m, peer, c0, e1, done.1, c2, e2, envelopes_view(rep.outbound@), Ok(())),
            Err(x) => exists|o1: Seq<EnvelopeV>| #[trigger] payload_done(m, peer, c0, e1, done.1, c2, e2, o1, Err(x)),
        },
    }
}

impl Node {
    /// Applies the payload of a peer's message that the engine accepted.
    fn apply_payload<H: HistoryStore, S: StateStore>(&mut self, history: &mut H, state: &mut S, peer: &str, message: &NetworkMessage, outbound: &mut Vec<OutboundEnvelope>) -> (r: Result<(), ApiError>)
        requires
            old(self).engine.wf(),
        ensures
            final(self).engine.wf(),
            payload_done(message@, peer@, old(self).chain@, old(self).engine@, envelopes_view(old(outbound)@),
                final(self).chain@, final(self).engine@, envelopes_view(final(outbound)@), r),
            r is Ok ==> payload_stored(message@, *old(history), *final(history), *old(state), *final(state), old(self).chain@, final(self).chain),
    {
        proof {
            self.chain.lemma_view_fields();
            reveal(payload_done);
        }
        match message {
            NetworkMessage::NewTransaction { transaction } => self.add_encoded_transaction(transaction),
            NetworkMessage::Mempool { transactions } => self.add_encoded_transactions(transactions),
            NetworkMessage::GetMempool => {
                let encoded = encode_transactions(&self.chain.pending_transactions);
                replace_or_push_mempool(outbound, peer, encoded);
                Ok(())
            },
            NetworkMessage::GetBlocks { from_height, limit } => {
                let blocks = blocks_from(self.chain.chain.as_slice(), *from_height, *limit as usize);
                let encoded = encode_blocks(&blocks);
                replace_or_push_blocks(outbound, peer, encoded);
                Ok(())
            },
            NetworkMessage::NewBlock { block } => self.accept_encoded_block(history, state, block),
            NetworkMessage::Blocks { blocks } => {
                match self.accept_encoded_blocks(history, state, blocks) {
                    Err(e) => { return Err(e); },
                    Ok(_) => {},
                }
                if blocks.len() > 0 {
                    proof { lemma_accept_all_nonempty(old(self).chain@, lists_view(blocks@), blocks@.len() as int); }
                    let next = match build_next_get_blocks_request(&self.chain, &self.engine, peer) {
                        Err(e) => { return Err(map_core_error(&e)); },
                        Ok(n) => n,
                    };
                    match next {
                        Some(m) => {
                            let ghost before = envelopes_view(outbound@);
                            outbound.push(OutboundEnvelope { target_peer_id: String::from_str(peer), message: m });
                            proof { assert(envelopes_view(outbound@) =~= before.push(EnvelopeV { target_peer_id: peer@, message: m@ })); }
                        },
                        None => {},
                    }
                }
                Ok(())
            },
            _ => Ok(()),
        }
    }

    /// Handles a message from a peer: the engine orders and handles it, then
    /// its payload moves the chain and the replies are completed.
    pub fn handle_p2p_message<H: HistoryStore, S: StateStore>(
        &mut self,
        history: &mut H,
        state: &mut S,
        peer_id: &str,
        address: &str,
        sequence: u64,
        message: NetworkMessage,
    ) -> (r: Result<ProcessReport, ApiError>)
        requires
            old(self).engine.wf(),
        ensures
            final(self).engine.wf(),
            is_blank_seq(peer_id@) || is_blank_seq(address@) ==> r is Err && api_is(r->Err_0, 400, "peer_id 和 address 不能为空"@)
                && final(self).chain@ == old(self).chain@ && final(self).engine@ == old(self).engine@,
            !is_blank_seq(peer_id@) && !is_blank_seq(address@) ==> match message_check(message@) {
                Err(e) => r is Err && api_is(r->Err_0, 400, p2p_error_text(P2pErrorV::InvalidMessage(validation_text(e))))
                    && final(self).chain@ == old(self).chain@ && final(self).engine@ == old(self).engine@,
                Ok(_) => exists|sm: SequencedMessage|
                    sm.peer_id@ == trim(peer_id@) && sm.sequence == sequence && sm.message@ == message@
                    && #[trigger] incoming_done(old(self).engine@, trim(peer_id@), trim(address@), sm, old(self).chain@,
                        final(self).chain@, final(self).engine@, message@, r),
            },
            r is Ok ==> payload_stored(message@, *old(history), *final(history), *old(state), *final(state), old(self).chain@, final(self).chain),
    {
        if is_blank(peer_id) || is_blank(address) {
            return Err(ApiError { status: 400, message: String::from_str("peer_id 和 address 不能为空") });
        }
        let pv = chars_of(peer_id);
        let peer = string_from_chars(trim_chars(pv.as_slice()).as_slice());
        let av = chars_of(address);
        let addr = string_from_chars(trim_chars(av.as_slice()).as_slice());
        let incoming = copy_message(&message);
        let ghost e0 = self.engine@;
        let ghost c0 = self.chain@;
        let ghost pspec = peer@;
        let ghost aspec = addr@;
        let res_in = self.engine.on_incoming_message(peer.as_str(), addr.as_str(), sequence, incoming);
        let ghost e1 = self.engine@;
        let ghost sm = choose|sm: SequencedMessage| sm.peer_id@ == pspec && sm.sequence == sequence && sm.message == incoming
            && (e1, report_result(res_in)) == incoming_spec(e0, pspec, aspec, sm);
        let mut report = match res_in {
            Err(e) => {
                let err = map_p2p_error(&e);
                proof {
                    if message_check(message@) is Ok {
                        assert(incoming_done(e0, pspec, aspec, sm, c0, self.chain@, self.engine@, message@, Err::<ProcessReport, ApiError>(err)));
                    }
                }
                return Err(err);
            },
            Ok(rep) => rep,
        };
        let ghost out = envelopes_view(report.outbound@);
        let ghost n = report.processed as nat;
        let res = self.apply_payload(history, state, peer.as_str(), &message, &mut report.outbound);
        let ghost o1 = envelopes_view(report.outbound@);
        let ghost gres = res;
        let r = match res {
            Err(e) => Err(e),
            Ok(_) => Ok(report),
        };
        proof {
            assert(message_check(message@) is Ok);
            assert(incoming_spec(e0, pspec, aspec, sm) == (e1, Ok::<(nat, Seq<EnvelopeV>), P2pErrorV>((n, out))));
            assert(payload_done(message@, pspec, c0, e1, out, self.chain@, self.engine@, o1, res));
            let c2 = self.chain@;
            let e2 = self.engine@;
            match gres {
                Ok(_) => {
                    assert(r == Ok::<ProcessReport, ApiError>(report));
                    assert(report.processed == n);
                    lemma_payload_ok(message@, pspec, c0, e1, out, c2, e2, o1, gres);
                    assert(incoming_done(e0, pspec, aspec, sm, c0, c2, e2, message@, r));
                },
                Err(x) => {
                    assert(payload_done(message@, pspec, c0, e1, out, c2, e2, o1, Err::<(), ApiError>(x)));
                    assert(r == Err::<ProcessReport, ApiError>(x));
                    assert(incoming_spec(e0, pspec, aspec, sm).1 == Ok::<(nat, Seq<EnvelopeV>), P2pErrorV>((n, out)));
                    assert(incoming_spec(e0, pspec, aspec, sm).0 == e1);
                    assert(incoming_done(e0, pspec, aspec, sm, c0, c2, e2, message@, r)) by {
                        assert(payload_done(message@, pspec, c0, incoming_spec(e0, pspec, aspec, sm).0,
                            incoming_spec(e0, pspec, aspec, sm).1->Ok_0.1, c2, e2, o1, Err::<(), ApiError>(r->Err_0)));
                    }
                },
            }
        }
        r
    }
}

/// Which success value the payload step reports does not matter.
proof fn lemma_payload_ok(
    m: NetworkMessageV, peer: Seq<char>,
    c0: ChainV, e0: EngineView, o0: Seq<EnvelopeV>,
    c1: ChainV, e1: EngineView, o1: Seq<EnvelopeV>,
    r: Result<(), ApiError>,
)
    requires
        r is Ok,
        payload_done(m, peer, c0, e0, o0, c1, e1, o1, r),
    ensures
        payload_done(m, peer, c0, e0, o0, c1, e1, o1, Ok(())),
{
    reveal(payload_done);
}

/// Appending at least one block leaves a non-empty chain.
proof fn lemma_accept_all_nonempty(v: ChainV, ls: Seq<Seq<u8>>, n: int)
    requires
        n >= 1,
        n <= ls.len(),
        accept_all(v, ls, n) is Some,
    ensures
        accept_all(v, ls, n)->Some_0.chain.len() > 0,
    decreases n,
{
    reveal(accept_one);
    let w = accept_all(v, ls, n - 1)->Some_0;
    let b = parse_block(ls[n - 1], 0)->Some_0.0;
    lemma_confirm_tip(w, b);
}

} // verus!
