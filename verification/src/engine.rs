//! Synchronisation engine: keeps one ordered queue per peer, handles the
//! messages of a peer in sequence order, updates the peer registry and
//! produces the messages to send back.

use vstd::prelude::*;
use crate::codec::{MessageCodec, encode_spec, decode_spec};
use crate::keyed::{KeyedMap, viewed, key_index, put_entry};
use crate::message::{ChainStatus, ChainStatusV, NetworkMessage, NetworkMessageV, message_check, validation_text, copy_message, copy_status};
use crate::p2p_error::{P2pError, P2pErrorV};
use crate::peer::{PeerRegistry, PeerInfo, PeerInfoV, PeerStatus, upsert_spec, peer_index, ids_unique, connected_only};
use crate::queue::{OrderedMessageQueue, QueueV, SequencedMessage, collect_spec};
use crate::text::{is_blank, is_blank_seq};

verus! {

/// A message to send to a peer.
#[derive(Debug, Clone, PartialEq, Eq)]
pub struct OutboundEnvelope {
    /// Target peer.
    pub target_peer_id: String,
    /// The message.
    pub message: NetworkMessage,
}

/// An envelope, viewed.
pub struct EnvelopeV {
    pub target_peer_id: Seq<char>,
    pub message: NetworkMessageV,
}

impl View for OutboundEnvelope {
    type V = EnvelopeV;

    open spec fn view(&self) -> EnvelopeV {
        EnvelopeV { target_peer_id: self.target_peer_id@, message: self.message@ }
    }
}

/// What one call handled.
#[derive(Debug, Clone, PartialEq, Eq)]
pub struct ProcessReport {
    /// Messages handled.
    pub processed: usize,
    /// Messages to send.
    pub outbound: Vec<OutboundEnvelope>,
}

impl Default for ProcessReport {
    fn default() -> (r: Self)
        ensures
            r.processed == 0,
            r.outbound@.len() == 0,
    {
        ProcessReport { processed: 0, outbound: Vec::new() }
    }
}

/// Envelopes, viewed.
pub open spec fn envelopes_view(v: Seq<OutboundEnvelope>) -> Seq<EnvelopeV> {
    v.map_values(|e: OutboundEnvelope| e@)
}

/// An envelope for `peer`.
pub open spec fn env(peer: Seq<char>, m: NetworkMessageV) -> EnvelopeV {
    EnvelopeV { target_peer_id: peer, message: m }
}

/// The peer with id `id` marked connected, with no latency known.
pub open spec fn alive(s: Seq<PeerInfoV>, id: Seq<char>) -> Seq<PeerInfoV> {
    match peer_index(s, id) {
        Some(i) => s.update(i, PeerInfoV { status: PeerStatus::Connected, latency_ms: None, ..s[i] }),
        None => s,
    }
}

/// The chain tip of the peer with id `id` recorded.
pub open spec fn tip(s: Seq<PeerInfoV>, id: Seq<char>, height: u64, hash: Seq<char>) -> Seq<PeerInfoV> {
    match peer_index(s, id) {
        Some(i) => s.update(i, PeerInfoV { best_height: height, best_hash: hash, ..s[i] }),
        None => s,
    }
}

/// The text of the error for a handshake without a node id.
pub open spec fn blank_node_text() -> Seq<char> {
    "handshake.node_id 不能为空"@
}

/// Handling one message from `peer`: the registry after it, and the replies.
pub open spec fn handle_one(s: Seq<PeerInfoV>, local: ChainStatusV, peer: Seq<char>, m: NetworkMessageV) -> (Seq<PeerInfoV>, Result<Seq<EnvelopeV>, P2pErrorV>) {
    let s0 = alive(s, peer);
    match m {
        NetworkMessageV::Ping { nonce, timestamp } => (s0, Ok(seq![env(peer, NetworkMessageV::Pong { nonce, timestamp })])),
        NetworkMessageV::Handshake(h) => if is_blank_seq(h.node_id) {
            (s0, Err(P2pErrorV::InvalidArgument(blank_node_text())))
        } else {
            let s1 = upsert_spec(s0, h.node_id, h.listen_addr);
            (alive(tip(s1, h.node_id, h.best_height, h.best_hash), h.node_id), Ok(seq![env(peer, NetworkMessageV::ChainStatus(local))]))
        },
        NetworkMessageV::GetChainStatus => (s0, Ok(seq![env(peer, NetworkMessageV::ChainStatus(local))])),
        NetworkMessageV::ChainStatus(c) => (
            tip(s0, peer, c.best_height, c.best_hash),
            Ok(if c.best_height > local.best_height {
                seq![env(peer, NetworkMessageV::GetBlocks {
                    from_height: if local.best_height == u64::MAX { u64::MAX } else { (local.best_height + 1) as u64 },
                    limit: 128,
                })]
            } else {
                Seq::empty()
            }),
        ),
        NetworkMessageV::GetMempool => (s0, Ok(seq![env(peer, NetworkMessageV::Mempool { transactions: Seq::empty() })])),
        NetworkMessageV::GetBlocks { .. } => (s0, Ok(seq![env(peer, NetworkMessageV::Blocks { blocks: Seq::empty() })])),
        _ => (s0, Ok(Seq::empty())),
    }
}

/// Handling the first `n` messages in order; the first error stops.
pub open spec fn handle_prefix(s: Seq<PeerInfoV>, local: ChainStatusV, peer: Seq<char>, ms: Seq<NetworkMessageV>, n: int) -> (Seq<PeerInfoV>, Result<Seq<EnvelopeV>, P2pErrorV>)
    decreases n,
{
    if n <= 0 {
        (s, Ok(Seq::empty()))
    } else {
        let (s1, r1) = handle_prefix(s, local, peer, ms, n - 1);
        match r1 {
            Err(e) => (s1, Err(e)),
            Ok(out) => {
                let (s2, r2) = handle_one(s1, local, peer, ms[n - 1]);
                match r2 {
                    Err(e) => (s2, Err(e)),
                    Ok(o) => (s2, Ok(out + o)),
                }
            },
        }
    }
}

/// The messages of sequenced messages, viewed.
pub open spec fn payloads(v: Seq<SequencedMessage>) -> Seq<NetworkMessageV> {
    v.map_values(|m: SequencedMessage| m.message@)
}

/// The engine, viewed.
pub struct EngineView {
    pub local_peer_id: Seq<char>,
    pub local_status: ChainStatusV,
    pub peers: Seq<PeerInfoV>,
    pub queues: Seq<(Seq<char>, QueueV)>,
}

/// The queue of `peer`, created expecting 1 if there is none.
pub open spec fn with_queue(qs: Seq<(Seq<char>, QueueV)>, peer: Seq<char>) -> Seq<(Seq<char>, QueueV)> {
    match key_index(qs, peer) {
        Some(_) => qs,
        None => qs.push((peer, QueueV { expected: 1, waiting: Map::empty(), ready: Seq::empty() })),
    }
}

/// What accepting `sm` from `peer` does, once the message passed its check:
/// the engine after it, and the number of messages handled with the replies.
pub open spec fn incoming_spec(v: EngineView, peer: Seq<char>, address: Seq<char>, sm: SequencedMessage) -> (EngineView, Result<(nat, Seq<EnvelopeV>), P2pErrorV>) {
    let peers1 = upsert_spec(v.peers, peer, address);
    let qs1 = with_queue(v.queues, peer);
    let i = key_index(qs1, peer)->0;
    let q = qs1[i].1;
    let v1 = EngineView { peers: peers1, queues: qs1, ..v };
    if sm.sequence < q.expected {
        (v1, Err(P2pErrorV::StaleSequence { seq: sm.sequence, expected: q.expected }))
    } else {
        let waiting = if q.waiting.contains_key(sm.sequence) { q.waiting } else { q.waiting.insert(sm.sequence, sm) };
        let (next, pending, ready) = collect_spec(q.expected, waiting, q.ready);
        let qs2 = qs1.update(i, (peer, QueueV { expected: next, waiting: pending, ready: Seq::empty() }));
        let (peers2, r) = handle_prefix(peers1, v.local_status, peer, payloads(ready), ready.len() as int);
        let v2 = EngineView { peers: peers2, queues: qs2, ..v };
        match r {
            Err(e) => (v2, Err(e)),
            Ok(out) => (v2, Ok((ready.len(), out))),
        }
    }
}

/// The engine and result once the due messages are handled.
pub open spec fn finish(v2: EngineView, peer: Seq<char>, ready: Seq<SequencedMessage>) -> (EngineView, Result<(nat, Seq<EnvelopeV>), P2pErrorV>) {
    let (peers2, r) = handle_prefix(v2.peers, v2.local_status, peer, payloads(ready), ready.len() as int);
    match r {
        Err(e) => (EngineView { peers: peers2, ..v2 }, Err(e)),
        Ok(out) => (EngineView { peers: peers2, ..v2 }, Ok((ready.len(), out))),
    }
}

/// A report result, viewed.
pub open spec fn report_result(r: Result<ProcessReport, P2pError>) -> Result<(nat, Seq<EnvelopeV>), P2pErrorV> {
    match r {
        Ok(rep) => Ok((rep.processed as nat, envelopes_view(rep.outbound@))),
        Err(e) => Err(e@),
    }
}

/// Changing a peer record without changing its id keeps ids unique.
proof fn lemma_same_id_update(s: Seq<PeerInfoV>, i: int, p: PeerInfoV)
    requires
        ids_unique(s),
        0 <= i < s.len(),
        p.id == s[i].id,
    ensures
        ids_unique(s.update(i, p)),
{
    let t = s.update(i, p);
    assert forall|a: int, b: int| 0 <= a < t.len() && 0 <= b < t.len() && a != b implies #[trigger] t[a].id != #[trigger] t[b].id by {
        assert(t[a].id == s[a].id && t[b].id == s[b].id);
    }
}

/// The peer-to-peer synchronisation engine.
pub struct SyncEngine {
    local_peer_id: String,
    local_chain_status: ChainStatus,
    peers: PeerRegistry,
    queues: KeyedMap<OrderedMessageQueue>,
}

impl View for SyncEngine {
    type V = EngineView;

    closed spec fn view(&self) -> EngineView {
        EngineView {
            local_peer_id: self.local_peer_id@,
            local_status: self.local_chain_status@,
            peers: self.peers@,
            queues: viewed(self.queues.seq()),
        }
    }
}

impl SyncEngine {
    /// Well-formedness: no two peers share an id.
    pub open spec fn wf(&self) -> bool {
        ids_unique(self@.peers)
    }

    /// An engine with no peers.
    pub fn new(local_peer_id: &str, local_chain_status: ChainStatus) -> (r: Self)
        ensures
            r@ == (EngineView { local_peer_id: local_peer_id@, local_status: local_chain_status@, peers: Seq::empty(), queues: Seq::empty() }),
            r.wf(),
    {
        let r = SyncEngine {
            local_peer_id: String::from_str(local_peer_id),
            local_chain_status,
            peers: PeerRegistry::new(),
            queues: KeyedMap::new(),
        };
        proof { assert(r@.queues =~= Seq::<(Seq<char>, QueueV)>::empty()); }
        r
    }

    /// The local node id.
    pub fn local_peer_id(&self) -> (r: &str)
        ensures
            r@ == self@.local_peer_id,
    {
        self.local_peer_id.as_str()
    }

    /// The local chain status.
    pub fn local_chain_status(&self) -> (r: &ChainStatus)
        ensures
            r@ == self@.local_status,
    {
        &self.local_chain_status
    }

    /// Replaces the local chain status.
    pub fn update_local_chain_status(&mut self, status: ChainStatus)
        ensures
            final(self)@ == (EngineView { local_status: status@, ..old(self)@ }),
    {
        self.local_chain_status = status;
    }

    /// The position of `peer_id`'s queue, created expecting 1 if there is none.
    fn queue_index(&mut self, peer_id: &str) -> (i: usize)
        ensures
            final(self)@ == (EngineView { queues: with_queue(old(self)@.queues, peer_id@), ..old(self)@ }),
            key_index(final(self)@.queues, peer_id@) == Some(i as int),
            i < final(self)@.queues.len(),
    {
        match self.queues.lookup(peer_id) {
            Some(i) => i,
            None => {
                let n = self.queues.len();
                let q = OrderedMessageQueue::new(1);
                proof { q.lemma_view(); }
                let ghost qv = q@;
                self.queues.store(String::from_str(peer_id), q);
                proof {
                    assert(viewed(self.queues.seq())[n as int].0 == peer_id@);
                    assert(self.queues.seq()[n as int].0 == viewed(self.queues.seq())[n as int].0);
                    use_type_invariant(&self.queues);
                    self.queues.lemma_unique();
                    crate::keyed::lemma_viewed_keys(self.queues.seq());
                    crate::keyed::lemma_key_index(self.queues.seq(), peer_id@, n as int);
                }
                n
            },
        }
    }

    /// Registers a known peer and opens its queue.
    pub fn register_peer(&mut self, peer_id: &str, address: &str)
        requires
            old(self).wf(),
        ensures
            final(self).wf(),
            final(self)@ == (EngineView {
                peers: upsert_spec(old(self)@.peers, peer_id@, address@),
                queues: with_queue(old(self)@.queues, peer_id@),
                ..old(self)@
            }),
    {
        self.peers.upsert(peer_id, address);
        self.queue_index(peer_id);
    }

    /// Marks `id` connected if it is known.
    fn touch(&mut self, id: &str)
        requires
            old(self).wf(),
        ensures
            final(self).wf(),
            final(self)@ == (EngineView { peers: alive(old(self)@.peers, id@), ..old(self)@ }),
    {
        let ghost before = self.peers@;
        match self.peers.get_mut(id) {
            Some(p) => {
                p.mark_alive(None);
                proof {
                    let i = peer_index(before, id@)->0;
                    lemma_same_id_update(before, i, PeerInfoV { status: PeerStatus::Connected, latency_ms: None, ..before[i] });
                }
            },
            None => {},
        }
    }

    /// Records the chain tip of `id` if it is known.
    fn record_tip(&mut self, id: &str, height: u64, hash: &str)
        requires
            old(self).wf(),
        ensures
            final(self).wf(),
            final(self)@ == (EngineView { peers: tip(old(self)@.peers, id@, height, hash@), ..old(self)@ }),
    {
        let ghost before = self.peers@;
        match self.peers.get_mut(id) {
            Some(p) => {
                p.update_chain_tip(height, hash);
                proof {
                    let i = peer_index(before, id@)->0;
                    lemma_same_id_update(before, i, PeerInfoV { best_height: height, best_hash: hash@, ..before[i] });
                }
            },
            None => {},
        }
    }

    /// Handles one message from `peer_id` that is due.
    fn handle_message(&mut self, peer_id: &str, message: &NetworkMessage) -> (r: Result<Vec<OutboundEnvelope>, P2pError>)
        requires
            old(self).wf(),
        ensures
            final(self).wf(),
            final(self)@ == (EngineView { peers: handle_one(old(self)@.peers, old(self)@.local_status, peer_id@, message@).0, ..old(self)@ }),
            match r {
                Ok(out) => handle_one(old(self)@.peers, old(self)@.local_status, peer_id@, message@).1 == Ok::<Seq<EnvelopeV>, P2pErrorV>(envelopes_view(out@)),
                Err(e) => handle_one(old(self)@.peers, old(self)@.local_status, peer_id@, message@).1 == Err::<Seq<EnvelopeV>, P2pErrorV>(e@),
            },
    {
        self.touch(peer_id);
        let mut outbound: Vec<OutboundEnvelope> = Vec::new();
        match message {
            NetworkMessage::Ping { nonce, timestamp } => {
                outbound.push(OutboundEnvelope {
                    target_peer_id: String::from_str(peer_id),
                    message: NetworkMessage::Pong { nonce: *nonce, timestamp: *timestamp },
                });
                proof { assert(envelopes_view(outbound@) =~= seq![env(peer_id@, NetworkMessageV::Pong { nonce: *nonce, timestamp: *timestamp })]); }
            },
            NetworkMessage::Handshake(handshake) => {
                if is_blank(handshake.node_id.as_str()) {
                    return Err(P2pError::InvalidArgument(String::from_str("handshake.node_id 不能为空")));
                }
                self.peers.upsert(handshake.node_id.as_str(), handshake.listen_addr.as_str());
                self.record_tip(handshake.node_id.as_str(), handshake.best_height, handshake.best_hash.as_str());
                self.touch(handshake.node_id.as_str());
                outbound.push(OutboundEnvelope {
                    target_peer_id: String::from_str(peer_id),
                    message: NetworkMessage::ChainStatus(copy_status(&self.local_chain_status)),
                });
                proof { assert(envelopes_view(outbound@) =~= seq![env(peer_id@, NetworkMessageV::ChainStatus(old(self)@.local_status))]); }
            },
            NetworkMessage::GetChainStatus => {
                outbound.push(OutboundEnvelope {
                    target_peer_id: String::from_str(peer_id),
                    message: NetworkMessage::ChainStatus(copy_status(&self.local_chain_status)),
                });
                proof { assert(envelopes_view(outbound@) =~= seq![env(peer_id@, NetworkMessageV::ChainStatus(old(self)@.local_status))]); }
            },
            NetworkMessage::ChainStatus(status) => {
                self.record_tip(peer_id, status.best_height, status.best_hash.as_str());
                if status.best_height > self.local_chain_status.best_height {
                    let h = self.local_chain_status.best_height;
                    let from_height = if h == u64::MAX { h } else { h + 1 };
                    outbound.push(OutboundEnvelope {
                        target_peer_id: String::from_str(peer_id),
                        message: NetworkMessage::GetBlocks { from_height, limit: 128 },
                    });
                    proof { assert(envelopes_view(outbound@) =~= seq![env(peer_id@, NetworkMessageV::GetBlocks { from_height, limit: 128 })]); }
                } else {
                    proof { assert(envelopes_view(outbound@) =~= Seq::<EnvelopeV>::empty()); }
                }
            },
            NetworkMessage::GetMempool => {
                let empty: Vec<Vec<u8>> = Vec::new();
                proof { assert(crate::message::lists_view(empty@) =~= Seq::<Seq<u8>>::empty()); }
                outbound.push(OutboundEnvelope {
                    target_peer_id: String::from_str(peer_id),
                    message: NetworkMessage::Mempool { transactions: empty },
                });
                proof { assert(envelopes_view(outbound@) =~= seq![env(peer_id@, NetworkMessageV::Mempool { transactions: Seq::empty() })]); }
            },
            NetworkMessage::GetBlocks { .. } => {
                let empty: Vec<Vec<u8>> = Vec::new();
                proof { assert(crate::message::lists_view(empty@) =~= Seq::<Seq<u8>>::empty()); }
                outbound.push(OutboundEnvelope {
                    target_peer_id: String::from_str(peer_id),
                    message: NetworkMessage::Blocks { blocks: empty },
                });
                proof { assert(envelopes_view(outbound@) =~= seq![env(peer_id@, NetworkMessageV::Blocks { blocks: Seq::empty() })]); }
            },
            _ => {
                proof { assert(envelopes_view(outbound@) =~= Seq::<EnvelopeV>::empty()); }
            },
        }
        proof {
            assert(envelopes_view(outbound@) =~= handle_one(old(self)@.peers, old(self)@.local_status, peer_id@, message@).1->Ok_0);
        }
        Ok(outbound)
    }

    /// Accepts a message of `peer_id` with its sequence number, and handles
    /// every message of that peer that is now due, in order.
    pub fn on_incoming_message(&mut self, peer_id: &str, address: &str, sequence: u64, message: NetworkMessage) -> (r: Result<ProcessReport, P2pError>)
        requires
            old(self).wf(),
        ensures
            final(self).wf(),
            match message_check(message@) {
                Err(e) => r == Err::<ProcessReport, P2pError>(P2pError::InvalidMessage(r->Err_0->InvalidMessage_0))
                    && r->Err_0@ == P2pErrorV::InvalidMessage(validation_text(e)) && final(self)@ == old(self)@,
                Ok(_) => exists|sm: SequencedMessage| sm.peer_id@ == peer_id@ && sm.sequence == sequence && sm.message == message
                    && (final(self)@, report_result(r)) == incoming_spec(old(self)@, peer_id@, address@, sm),
            },
    {
        match message.validate_basic() {
            Err(e) => { return Err(P2pError::InvalidMessage(e.message())); },
            Ok(()) => {},
        }
        let ghost v0 = self@;
        self.peers.upsert(peer_id, address);
        let i = self.queue_index(peer_id);
        let ghost v1 = self@;
        let mut q = self.queues.replace_value(i, OrderedMessageQueue::new(1));
        let sm = SequencedMessage::new(peer_id, sequence, message);
        let ghost smg = sm;
        proof { q.lemma_view(); }
        match q.push(sm) {
            Err(e) => {
                proof { q.lemma_view(); }
                self.queues.replace_value(i, q);
                proof {
                    assert(viewed(self.queues.seq()) =~= v1.queues);
                    assert(smg.peer_id@ == peer_id@ && smg.sequence == sequence && smg.message == message);
                    assert((self@, report_result(Err(e))) == incoming_spec(v0, peer_id@, address@, smg));
                }
                return Err(e);
            },
            Ok(()) => {},
        }
        let ready = q.pop_all_ready();
        proof { q.lemma_view(); }
        let ghost qv = q@;
        self.queues.replace_value(i, q);
        let ghost v2 = self@;
        proof {
            assert(v2.queues =~= v1.queues.update(i as int, (v1.queues[i as int].0, qv)));
            assert(smg.peer_id@ == peer_id@ && smg.sequence == sequence && smg.message == message);
            assert(incoming_spec(v0, peer_id@, address@, smg) == finish(v2, peer_id@, ready@));
        }
        let mut report = ProcessReport { processed: 0, outbound: Vec::new() };
        proof { assert(envelopes_view(report.outbound@) =~= Seq::<EnvelopeV>::empty()); }
        let mut k: usize = 0;
        while k < ready.len()
            invariant
                k <= ready@.len(),
                self.wf(),
                self@ == (EngineView { peers: self@.peers, ..v2 }),
                report.processed == k,
                smg.peer_id@ == peer_id@ && smg.sequence == sequence && smg.message == message,
                v0 == old(self)@,
                message_check(message@) is Ok,
                incoming_spec(v0, peer_id@, address@, smg) == finish(v2, peer_id@, ready@),
                handle_prefix(v2.peers, v2.local_status, peer_id@, payloads(ready@), k as int) == (self@.peers, Ok::<Seq<EnvelopeV>, P2pErrorV>(envelopes_view(report.outbound@))),
            decreases ready.len() - k,
        {
            let ghost before = envelopes_view(report.outbound@);
            let out = match self.handle_message(peer_id, &ready[k].message) {
                Ok(out) => out,
                Err(e) => {
                    proof {
                        assert(payloads(ready@)[k as int] == ready@[k as int].message@);
                        lemma_handle_stops(v2.peers, v2.local_status, peer_id@, payloads(ready@), k + 1, ready@.len() as int);
                        assert((self@, report_result(Err(e))) == incoming_spec(v0, peer_id@, address@, smg));
                        assert(smg.peer_id@ == peer_id@ && smg.sequence == sequence && smg.message == message);
                    }
                    return Err(e);
                },
            };
            proof { assert(payloads(ready@)[k as int] == ready@[k as int].message@); }
            let mut out = out;
            let ghost outv = out@;
            report.outbound.append(&mut out);
            report.processed = k + 1;
            proof {
                assert(envelopes_view(report.outbound@) =~= before + envelopes_view(outv));
            }
            k = k + 1;
        }
        proof {
            assert(payloads(ready@).len() == ready@.len());
            assert(smg.peer_id@ == peer_id@ && smg.sequence == sequence && smg.message == message);
            assert((self@, report_result(Ok(report))) == incoming_spec(v0, peer_id@, address@, smg));
        }
        Ok(report)
    }

    /// Decodes a message of `peer_id` and accepts it as `on_incoming_message` does.
    pub fn on_incoming_encoded(&mut self, peer_id: &str, address: &str, sequence: u64, payload: &[u8]) -> (r: Result<ProcessReport, P2pError>)
        requires
            old(self).wf(),
        ensures
            final(self).wf(),
            match decode_spec(payload@) {
                Err(e) => r is Err && r->Err_0@ == e && final(self)@ == old(self)@,
                Ok(m) => exists|sm: SequencedMessage| sm.peer_id@ == peer_id@ && sm.sequence == sequence && sm.message@ == m
                    && (final(self)@, report_result(r)) == incoming_spec(old(self)@, peer_id@, address@, sm),
            },
    {
        let message = match MessageCodec::decode(payload) {
            Ok(m) => m,
            Err(e) => { return Err(e); },
        };
        self.on_incoming_message(peer_id, address, sequence, message)
    }

    /// The bytes of a message that passes its check.
    pub fn encode_outbound(&self, message: &NetworkMessage) -> (r: Result<Vec<u8>, P2pError>)
        ensures
            match r {
                Ok(b) => encode_spec(message@) == Ok::<Seq<u8>, P2pErrorV>(b@),
                Err(e) => encode_spec(message@) == Err::<Seq<u8>, P2pErrorV>(e@),
            },
    {
        MessageCodec::encode(message)
    }

    /// The peer registry.
    pub fn peers(&self) -> (r: &PeerRegistry)
        ensures
            r@ == self@.peers,
    {
        &self.peers
    }

    /// Copies of all peer records.
    pub fn peer_snapshot(&self) -> (r: Vec<PeerInfo>)
        ensures
            r@.map_values(|p: PeerInfo| p@) == self@.peers,
    {
        self.peers.snapshot()
    }

    /// Number of known peers.
    pub fn peer_count(&self) -> (r: usize)
        ensures
            r == self@.peers.len(),
    {
        self.peers.len()
    }

    /// The next sequence number expected from `peer_id`, if it has a queue.
    pub fn next_expected_sequence(&self, peer_id: &str) -> (r: Option<u64>)
        ensures
            match key_index(self@.queues, peer_id@) {
                Some(i) => r == Some(self@.queues[i].1.expected),
                None => r is None,
            },
    {
        match self.queues.lookup(peer_id) {
            Some(i) => {
                let q = self.queues.value_at(i);
                proof { q.lemma_view(); }
                Some(q.next_expected())
            },
            None => None,
        }
    }

    /// The message addressed to every connected peer, in registration order.
    pub fn broadcast_to_connected(&self, message: NetworkMessage) -> (r: Vec<OutboundEnvelope>)
        ensures
            envelopes_view(r@) == connected_only(self@.peers).map_values(|p: PeerInfoV| env(p.id, message@)),
    {
        let connected = self.peers.connected_peers();
        let ghost cv = connected@.map_values(|p: &PeerInfo| p@);
        let mut out: Vec<OutboundEnvelope> = Vec::new();
        let mut i: usize = 0;
        while i < connected.len()
            invariant
                i <= connected@.len(),
                cv == connected@.map_values(|p: &PeerInfo| p@),
                envelopes_view(out@) == cv.subrange(0, i as int).map_values(|p: PeerInfoV| env(p.id, message@)),
            decreases connected.len() - i,
        {
            let p = connected[i];
            let ghost before = envelopes_view(out@);
            out.push(OutboundEnvelope { target_peer_id: p.id.clone(), message: copy_message(&message) });
            proof {
                assert(cv[i as int] == p@);
                assert(envelopes_view(out@) =~= before.push(env(p@.id, message@)));
                assert(cv.subrange(0, i + 1).map_values(|p: PeerInfoV| env(p.id, message@)) =~= cv.subrange(0, i as int).map_values(|p: PeerInfoV| env(p.id, message@)).push(env(cv[i as int].id, message@)));
            }
            i = i + 1;
        }
        proof { assert(cv.subrange(0, i as int) =~= cv); }
        out
    }
}

/// Once handling a prefix fails, longer prefixes fail the same way.
proof fn lemma_handle_stops(s: Seq<PeerInfoV>, local: ChainStatusV, peer: Seq<char>, ms: Seq<NetworkMessageV>, k: int, n: int)
    requires
        0 <= k <= n,
        handle_prefix(s, local, peer, ms, k).1 is Err,
    ensures
        handle_prefix(s, local, peer, ms, n) == handle_prefix(s, local, peer, ms, k),
    decreases n - k,
{
    if n > k {
        lemma_handle_stops(s, local, peer, ms, k, n - 1);
    }
}

} // verus!
