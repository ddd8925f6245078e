//! Transport sessions: one per remote peer, turning a byte stream into
//! numbered messages for the engine, and the frames of outbound messages.

use vstd::prelude::*;
use crate::codec::{FrameDecodeBuffer, FramedMessageCodec, drain_spec, decode_frame_spec, decode_spec, encode_frame_spec, messages_view, DEFAULT_MAX_FRAME_LEN};
use crate::engine::{SyncEngine, EngineView, ProcessReport, OutboundEnvelope, EnvelopeV, envelopes_view, incoming_spec, report_result};
use crate::keyed::{KeyedMap, viewed, key_index};
use crate::message::{NetworkMessage, NetworkMessageV, message_check};
use crate::p2p_error::{P2pError, P2pErrorV};
use crate::queue::SequencedMessage;

verus! {

/// A frame ready to be written to a peer.
#[derive(Debug, Clone, PartialEq, Eq)]
pub struct OutboundFrame {
    /// Target peer.
    pub target_peer_id: String,
    /// The whole frame.
    pub bytes: Vec<u8>,
}

/// `n` added to `s`, staying at `u64::MAX`.
pub open spec fn sat_add_u64(s: u64, n: int) -> u64 {
    if s + n > u64::MAX { u64::MAX } else { (s + n) as u64 }
}

/// `a + b`, staying at `usize::MAX`.
pub open spec fn sat_add_usize(a: nat, b: nat) -> nat {
    if a + b > usize::MAX { usize::MAX as nat } else { a + b }
}

/// The stamped messages stand for `ms`, from `peer`, numbered from `first`.
pub open spec fn stamped(sms: Seq<SequencedMessage>, ms: Seq<NetworkMessageV>, peer: Seq<char>, first: u64) -> bool {
    &&& sms.len() == ms.len()
    &&& forall|k: int| 0 <= k < sms.len() ==> (#[trigger] sms[k]).peer_id@ == peer && sms[k].message@ == ms[k] && sms[k].sequence == sat_add_u64(first, k)
}

/// Feeding the first `n` messages to the engine, numbered from `first`: the
/// engine after it, the next number, and the summed report (the first error stops).
pub open spec fn feed(v: EngineView, peer: Seq<char>, address: Seq<char>, first: u64, sms: Seq<SequencedMessage>, n: int) -> (EngineView, u64, Result<(nat, Seq<EnvelopeV>), P2pErrorV>)
    decreases n,
{
    if n <= 0 {
        (v, first, Ok((0nat, Seq::empty())))
    } else {
        let (v1, s1, r1) = feed(v, peer, address, first, sms, n - 1);
        match r1 {
            Err(e) => (v1, s1, Err(e)),
            Ok((p, out)) => {
                let (v2, r2) = incoming_spec(v1, peer, address, sms[n - 1]);
                match r2 {
                    Err(e) => (v2, s1, Err(e)),
                    Ok((p2, o2)) => (v2, sat_add_u64(s1, 1), Ok((sat_add_usize(p, p2), out + o2))),
                }
            },
        }
    }
}

/// A transport session, viewed.
pub struct SessionV {
    pub peer_id: Seq<char>,
    pub address: Seq<char>,
    pub next_sequence: u64,
    pub buffered: Seq<u8>,
    pub max_frame_len: usize,
}

/// The session with one peer.
pub struct TransportSession {
    peer_id: String,
    address: String,
    next_sequence: u64,
    decode_buffer: FrameDecodeBuffer,
}

impl View for TransportSession {
    type V = SessionV;

    closed spec fn view(&self) -> SessionV {
        SessionV {
            peer_id: self.peer_id@,
            address: self.address@,
            next_sequence: self.next_sequence,
            buffered: self.decode_buffer.bytes(),
            max_frame_len: self.decode_buffer.limit(),
        }
    }
}

/// What pushing bytes into a session does, given the stamped messages the
/// engine receives: the session, the engine and the result after it.
pub open spec fn session_push_spec(s: SessionV, v: EngineView, bytes: Seq<u8>, sms: Seq<SequencedMessage>) -> (SessionV, EngineView, Result<(nat, Seq<EnvelopeV>), P2pErrorV>) {
    let (rest, dr) = drain_spec(s.buffered + bytes, s.max_frame_len);
    let s1 = SessionV { buffered: rest, ..s };
    match dr {
        Err(e) => (s1, v, Err(e)),
        Ok(ms) => {
            let (v2, next, r) = feed(v, s.peer_id, s.address, s.next_sequence, sms, ms.len() as int);
            (SessionV { next_sequence: next, ..s1 }, v2, r)
        },
    }
}

/// Every message a drain hands out passed its structural check.
proof fn lemma_drained_valid(d: Seq<u8>, max: usize)
    ensures
        drain_spec(d, max).1 matches Ok(ms) ==> forall|k: int| 0 <= k < ms.len() ==> #[trigger] message_check(ms[k]) is Ok,
    decreases d.len(),
{
    match decode_frame_spec(d, max) {
        Ok(Some((m, k))) => {
            if 4 <= k <= d.len() {
                lemma_drained_valid(d.subrange(k as int, d.len() as int), max);
                let n = crate::codec::from_be_u32(d.subrange(0, 4)) as nat;
                match drain_spec(d.subrange(k as int, d.len() as int), max).1 {
                    Ok(ms) => {
                        let all = seq![m] + ms;
                        assert forall|j: int| 0 <= j < all.len() implies #[trigger] message_check(all[j]) is Ok by {
                            if j > 0 {
                                assert(all[j] == ms[j - 1]);
                            } else {
                                assert(decode_spec(d.subrange(4, (4 + n) as int)) == Ok::<NetworkMessageV, P2pErrorV>(m));
                            }
                        }
                    },
                    Err(_) => {},
                }
            }
        },
        _ => {},
    }
}

/// Adds one report to another.
fn merge_report(target: &mut ProcessReport, source: ProcessReport)
    ensures
        final(target).processed == sat_add_usize(old(target).processed as nat, source.processed as nat),
        envelopes_view(final(target).outbound@) == envelopes_view(old(target).outbound@) + envelopes_view(source.outbound@),
{
    target.processed = if target.processed > usize::MAX - source.processed { usize::MAX } else { target.processed + source.processed };
    let mut out = source.outbound;
    let ghost o = out@;
    target.outbound.append(&mut out);
    proof { assert(envelopes_view(final(target).outbound@) =~= envelopes_view(old(target).outbound@) + envelopes_view(o)); }
}

/// Once feeding a prefix fails, longer prefixes give the same.
proof fn lemma_feed_stops(v: EngineView, peer: Seq<char>, address: Seq<char>, first: u64, sms: Seq<SequencedMessage>, k: int, n: int)
    requires
        0 <= k <= n,
        feed(v, peer, address, first, sms, k).2 is Err,
    ensures
        feed(v, peer, address, first, sms, n) == feed(v, peer, address, first, sms, k),
    decreases n - k,
{
    if n > k {
        lemma_feed_stops(v, peer, address, first, sms, k, n - 1);
    }
}

impl TransportSession {
    /// A session with `peer_id`; its messages are numbered from 1.
    pub fn new(peer_id: &str, address: &str) -> (r: Self)
        ensures
            r@ == (SessionV { peer_id: peer_id@, address: address@, next_sequence: 1, buffered: Seq::empty(), max_frame_len: DEFAULT_MAX_FRAME_LEN }),
    {
        TransportSession {
            peer_id: String::from_str(peer_id),
            address: String::from_str(address),
            next_sequence: 1,
            decode_buffer: FrameDecodeBuffer::new(),
        }
    }

    /// The number the next whole message will get.
    pub fn next_sequence(&self) -> (r: u64)
        ensures
            r == self@.next_sequence,
    {
        self.next_sequence
    }

    /// Bytes waiting for the rest of their frame.
    pub fn buffered_len(&self) -> (r: usize)
        ensures
            r == self@.buffered.len(),
    {
        self.decode_buffer.buffered_len()
    }

    /// The peer of the session.
    pub fn peer_id(&self) -> (r: &str)
        ensures
            r@ == self@.peer_id,
    {
        self.peer_id.as_str()
    }

    /// The address of the peer.
    pub fn address(&self) -> (r: &str)
        ensures
            r@ == self@.address,
    {
        self.address.as_str()
    }

    /// Appends bytes from the network and hands every whole message to the
    /// engine, numbered in order of arrival.
    pub fn push_inbound_bytes(&mut self, engine: &mut SyncEngine, bytes: &[u8]) -> (r: Result<ProcessReport, P2pError>)
        requires
            old(engine).wf(),
        ensures
            final(engine).wf(),
            exists|sms: Seq<SequencedMessage>|
                (drain_spec(old(self)@.buffered + bytes@, old(self)@.max_frame_len).1 matches Ok(ms) ==> stamped(sms, ms, old(self)@.peer_id, old(self)@.next_sequence))
                && (final(self)@, final(engine)@, report_result(r)) == session_push_spec(old(self)@, old(engine)@, bytes@, sms),
    {
        self.decode_buffer.push(bytes);
        let ghost s0 = old(self)@;
        let ghost e0 = engine@;
        let messages = match self.decode_buffer.drain_messages() {
            Ok(ms) => ms,
            Err(e) => {
                proof {
                    let sms = Seq::<SequencedMessage>::empty();
                    assert((self@, engine@, report_result(Err(e))) == session_push_spec(s0, e0, bytes@, sms));
                }
                return Err(e);
            },
        };
        let ghost ms = messages_view(messages@);
        proof { lemma_drained_valid(s0.buffered + bytes@, s0.max_frame_len); }
        let mut report = ProcessReport { processed: 0, outbound: Vec::new() };
        proof { assert(envelopes_view(report.outbound@) =~= Seq::<EnvelopeV>::empty()); }
        let ghost mut sms: Seq<SequencedMessage> = Seq::empty();
        let mut rest = messages;
        let mut k: usize = 0;
        let n = rest.len();
        while k < n
            invariant
                n == ms.len(),
                n == rest@.len(),
                k <= n,
                ms == messages_view(rest@),
                forall|j: int| 0 <= j < ms.len() ==> #[trigger] message_check(ms[j]) is Ok,
                engine.wf(),
                sms.len() == k,
                s0 == old(self)@,
                e0 == old(engine)@,
                self@.next_sequence == sat_add_u64(s0.next_sequence, k as int),
                forall|j: int| 0 <= j < k ==> (#[trigger] sms[j]).peer_id@ == s0.peer_id && sms[j].message@ == ms[j] && sms[j].sequence == sat_add_u64(s0.next_sequence, j),
                self@ == (SessionV { next_sequence: self@.next_sequence, buffered: drain_spec(s0.buffered + bytes@, s0.max_frame_len).0, ..s0 }),
                drain_spec(s0.buffered + bytes@, s0.max_frame_len).1 == Ok::<Seq<NetworkMessageV>, P2pErrorV>(ms),
                forall|sm2: Seq<SequencedMessage>| sm2.len() >= k && #[trigger] sm2.subrange(0, k as int) == sms ==>
                    feed(e0, s0.peer_id, s0.address, s0.next_sequence, sm2, k as int) == (engine@, self@.next_sequence, Ok::<(nat, Seq<EnvelopeV>), P2pErrorV>((report.processed as nat, envelopes_view(report.outbound@)))),
            decreases n - k,
        {
            let message = crate::message::copy_message(&rest[k]);
            proof { assert(message@ == ms[k as int]); }
            let ghost before_engine = engine@;
            let ghost before_next = self@.next_sequence;
            let ghost before_report = (report.processed as nat, envelopes_view(report.outbound@));
            let item = engine.on_incoming_message(self.peer_id.as_str(), self.address.as_str(), self.next_sequence, message);
            let ghost sm = choose|sm: SequencedMessage| sm.peer_id@ == s0.peer_id && sm.sequence == before_next && sm.message@ == ms[k as int]
                && (engine@, report_result(item)) == incoming_spec(before_engine, s0.peer_id, s0.address, sm);
            proof {
                assert(message_check(ms[k as int]) is Ok);
                let ghost nsms = sms.push(sm);
                assert forall|sm2: Seq<SequencedMessage>| sm2.len() >= k + 1 && #[trigger] sm2.subrange(0, k + 1) == nsms implies
                    feed(e0, s0.peer_id, s0.address, s0.next_sequence, sm2, k + 1) == (match report_result(item) {
                        Err(e) => (engine@, before_next, Err::<(nat, Seq<EnvelopeV>), P2pErrorV>(e)),
                        Ok((p2, o2)) => (engine@, sat_add_u64(before_next, 1), Ok::<(nat, Seq<EnvelopeV>), P2pErrorV>((sat_add_usize(before_report.0, p2), before_report.1 + o2))),
                    }) by {
                    assert(sm2.subrange(0, k as int) =~= sms);
                    assert(sm2[k as int] == nsms[k as int]);
                }
                sms = nsms;
            }
            let item_report = match item {
                Ok(rep) => rep,
                Err(e) => {
                    proof {
                        let pid = self.peer_id;
                        let pad = Seq::new((n - k - 1) as nat, |j: int| SequencedMessage {
                            peer_id: pid,
                            sequence: sat_add_u64(s0.next_sequence, k + 1 + j),
                            received_at_secs: 0,
                            message: rest@[k + 1 + j],
                        });
                        let sm_all = sms + pad;
                        assert(sm_all.subrange(0, k + 1) =~= sms);
                        assert forall|j: int| 0 <= j < sm_all.len() implies (#[trigger] sm_all[j]).peer_id@ == s0.peer_id && sm_all[j].message@ == ms[j] && sm_all[j].sequence == sat_add_u64(s0.next_sequence, j) by {
                            if j > k {
                                assert(sm_all[j] == pad[j - k - 1]);
                                assert(ms[j] == rest@[j]@);
                                assert(pid@ == s0.peer_id);
                            } else {
                                assert(sm_all[j] == sms[j]);
                            }
                        }
                        assert(feed(e0, s0.peer_id, s0.address, s0.next_sequence, sm_all, k + 1).2 is Err);
                        lemma_feed_stops(e0, s0.peer_id, s0.address, s0.next_sequence, sm_all, k + 1, n as int);
                        assert((self@, engine@, report_result(Err(e))) == session_push_spec(s0, e0, bytes@, sm_all));
                        assert(drain_spec(s0.buffered + bytes@, s0.max_frame_len).1 matches Ok(ms2) ==> stamped(sm_all, ms2, s0.peer_id, s0.next_sequence));
                    }
                    return Err(e);
                },
            };
            self.next_sequence = if self.next_sequence == u64::MAX { u64::MAX } else { self.next_sequence + 1 };
            merge_report(&mut report, item_report);
            k = k + 1;
        }
        proof {
            assert(sms.subrange(0, n as int) =~= sms);
            assert(stamped(sms, ms, s0.peer_id, s0.next_sequence));
            assert((self@, engine@, report_result(Ok(report))) == session_push_spec(s0, e0, bytes@, sms));
        }
        Ok(report)
    }
}

/// The session that bytes from `peer` go to: its own, or a new one.
pub open spec fn pool_session(p: Seq<(Seq<char>, SessionV)>, peer: Seq<char>, address: Seq<char>) -> SessionV {
    match key_index(p, peer) {
        Some(i) => p[i].1,
        None => SessionV { peer_id: peer, address, next_sequence: 1, buffered: Seq::empty(), max_frame_len: DEFAULT_MAX_FRAME_LEN },
    }
}

/// What a session is at a moment: its peer, the number its next message
/// gets, and how many bytes wait for the rest of their frame.
pub struct SessionSnapshot {
    pub peer_id: String,
    pub address: String,
    pub next_sequence: u64,
    pub buffered_bytes: usize,
}

/// Whether a snapshot describes a session.
pub open spec fn snapshot_of(x: SessionSnapshot, s: SessionV) -> bool {
    &&& x.peer_id@ == s.peer_id
    &&& x.address@ == s.address
    &&& x.next_sequence == s.next_sequence
    &&& x.buffered_bytes == s.buffered.len()
}

/// All sessions, by peer.
pub struct TransportSessionPool {
    sessions: KeyedMap<TransportSession>,
}

impl View for TransportSessionPool {
    type V = Seq<(Seq<char>, SessionV)>;

    closed spec fn view(&self) -> Seq<(Seq<char>, SessionV)> {
        viewed(self.sessions.seq())
    }
}

impl TransportSessionPool {
    /// A pool with no session.
    pub fn new() -> (r: Self)
        ensures
            r@ == Seq::<(Seq<char>, SessionV)>::empty(),
    {
        let r = TransportSessionPool { sessions: KeyedMap::new() };
        proof { assert(r@ =~= Seq::<(Seq<char>, SessionV)>::empty()); }
        r
    }

    /// Appends bytes from `peer_id`, opening its session first if needed.
    pub fn push_inbound_bytes(&mut self, engine: &mut SyncEngine, peer_id: &str, address: &str, bytes: &[u8]) -> (r: Result<ProcessReport, P2pError>)
        requires
            old(engine).wf(),
        ensures
            final(engine).wf(),
            final(self)@.len() == old(self)@.len() + (if key_index(old(self)@, peer_id@) is Some { 0int } else { 1int }),
            key_index(final(self)@, peer_id@) is Some,
            key_index(final(self)@, peer_id@) == Some(match key_index(old(self)@, peer_id@) {
                Some(j) => j,
                None => old(self)@.len() as int,
            }),
            forall|j: int| 0 <= j < old(self)@.len() && Some(j) != key_index(old(self)@, peer_id@)
                ==> #[trigger] final(self)@[j] == old(self)@[j],
            exists|sms: Seq<SequencedMessage>|
                (drain_spec(pool_session(old(self)@, peer_id@, address@).buffered + bytes@, pool_session(old(self)@, peer_id@, address@).max_frame_len).1 matches Ok(ms)
                    ==> stamped(sms, ms, pool_session(old(self)@, peer_id@, address@).peer_id, pool_session(old(self)@, peer_id@, address@).next_sequence))
                && (final(self)@[key_index(final(self)@, peer_id@)->0].1, final(engine)@, report_result(r))
                    == #[trigger] session_push_spec(pool_session(old(self)@, peer_id@, address@), old(engine)@, bytes@, sms),
    {
        proof { use_type_invariant(&self.sessions); self.sessions.lemma_unique(); crate::keyed::lemma_viewed_keys(self.sessions.seq()); }
        let i = match self.sessions.lookup(peer_id) {
            Some(i) => i,
            None => {
                let n = self.sessions.len();
                self.sessions.store(String::from_str(peer_id), TransportSession::new(peer_id, address));
                proof {
                    use_type_invariant(&self.sessions);
                    self.sessions.lemma_unique();
                    crate::keyed::lemma_viewed_keys(self.sessions.seq());
                    assert(viewed(self.sessions.seq())[n as int].0 == peer_id@);
                    crate::keyed::lemma_key_index(viewed(self.sessions.seq()), peer_id@, n as int);
                }
                n
            },
        };
        let ghost mid = self@;
        let ghost e0 = engine@;
        let mut session = self.sessions.replace_value(i, TransportSession::new(peer_id, address));
        proof {
            assert(session@ == mid[i as int].1);
            assert(session@ == pool_session(old(self)@, peer_id@, address@));
        }
        let ghost s0 = session@;
        let r = session.push_inbound_bytes(engine, bytes);
        let ghost sms = choose|sms: Seq<SequencedMessage>|
            (drain_spec(s0.buffered + bytes@, s0.max_frame_len).1 matches Ok(ms) ==> stamped(sms, ms, s0.peer_id, s0.next_sequence))
            && (session@, engine@, report_result(r)) == session_push_spec(s0, e0, bytes@, sms);
        let ghost sv = session@;
        self.sessions.replace_value(i, session);
        proof {
            assert(self@ =~= mid.update(i as int, (mid[i as int].0, sv)));
            use_type_invariant(&self.sessions);
            self.sessions.lemma_unique();
            crate::keyed::lemma_viewed_keys(self.sessions.seq());
            crate::keyed::lemma_key_index(self@, peer_id@, i as int);
            assert(self@[i as int].1 == sv);
            assert((self@[key_index(self@, peer_id@)->0].1, engine@, report_result(r)) == session_push_spec(pool_session(old(self)@, peer_id@, address@), old(engine)@, bytes@, sms));
        }
        r
    }

    /// Drops the session of `peer_id`; tells whether there was one.
    pub fn remove(&mut self, peer_id: &str) -> (r: bool)
        ensures
            r == (key_index(old(self)@, peer_id@) is Some),
            match key_index(old(self)@, peer_id@) {
                Some(i) => final(self)@ == old(self)@.remove(i),
                None => final(self)@ == old(self)@,
            },
    {
        proof { use_type_invariant(&self.sessions); self.sessions.lemma_unique(); crate::keyed::lemma_viewed_keys(self.sessions.seq()); }
        let ghost before = self.sessions.seq();
        let r = self.sessions.remove(peer_id);
        proof {
            match key_index(before, peer_id@) {
                Some(i) => {
                    assert(viewed(self.sessions.seq()) =~= viewed(before).remove(i));
                    crate::keyed::lemma_map_of_unique(before);
                    crate::keyed::lemma_map_of_dom(before, peer_id@);
                },
                None => {
                    crate::keyed::lemma_map_of_dom(before, peer_id@);
                },
            }
        }
        r.is_some()
    }

    /// Number of sessions.
    pub fn session_count(&self) -> (r: usize)
        ensures
            r == self@.len(),
    {
        self.sessions.len()
    }

    /// A snapshot of every session, in the order the sessions were opened.
    pub fn snapshot(&self) -> (r: Vec<SessionSnapshot>)
        ensures
            r@.len() == self@.len(),
            forall|i: int| 0 <= i < r@.len() ==> snapshot_of(#[trigger] r@[i], self@[i].1),
    {
        let n = self.sessions.len();
        let mut out: Vec<SessionSnapshot> = Vec::new();
        let mut i: usize = 0;
        while i < n
            invariant
                n == self.sessions.seq().len(),
                self@ == viewed(self.sessions.seq()),
                i <= n,
                out@.len() == i,
                forall|j: int| 0 <= j < i ==> snapshot_of(#[trigger] out@[j], self@[j].1),
            decreases n - i,
        {
            let s = self.sessions.value_at(i);
            let x = SessionSnapshot {
                peer_id: String::from_str(s.peer_id()),
                address: String::from_str(s.address()),
                next_sequence: s.next_sequence(),
                buffered_bytes: s.buffered_len(),
            };
            proof { assert(self@[i as int].1 == s@); }
            out.push(x);
            i = i + 1;
        }
        out
    }

    /// The number the next message of `peer_id` will get, if it has a session.
    pub fn next_sequence(&self, peer_id: &str) -> (r: Option<u64>)
        ensures
            match key_index(self@, peer_id@) {
                Some(i) => r == Some(self@[i].1.next_sequence),
                None => r is None,
            },
    {
        match self.sessions.lookup(peer_id) {
            Some(i) => Some(self.sessions.value_at(i).next_sequence()),
            None => None,
        }
    }

    /// Bytes of `peer_id` waiting for the rest of their frame, if it has a session.
    pub fn buffered_len(&self, peer_id: &str) -> (r: Option<usize>)
        ensures
            match key_index(self@, peer_id@) {
                Some(i) => r == Some(self@[i].1.buffered.len() as usize),
                None => r is None,
            },
    {
        match self.sessions.lookup(peer_id) {
            Some(i) => Some(self.sessions.value_at(i).buffered_len()),
            None => None,
        }
    }
}

/// Frames, viewed.
pub open spec fn frames_view(v: Seq<OutboundFrame>) -> Seq<(Seq<char>, Seq<u8>)> {
    v.map_values(|f: OutboundFrame| (f.target_peer_id@, f.bytes@))
}

/// Framing the first `n` envelopes; the first error stops.
pub open spec fn frames_spec(v: Seq<EnvelopeV>, n: int) -> Result<Seq<(Seq<char>, Seq<u8>)>, P2pErrorV>
    decreases n,
{
    if n <= 0 {
        Ok(Seq::empty())
    } else {
        match frames_spec(v, n - 1) {
            Err(e) => Err(e),
            Ok(fs) => match encode_frame_spec(v[n - 1].message, DEFAULT_MAX_FRAME_LEN) {
                Err(e) => Err(e),
                Ok(b) => Ok(fs.push((v[n - 1].target_peer_id, b))),
            },
        }
    }
}

/// Once framing a prefix fails, longer prefixes fail the same way.
proof fn lemma_frames_stop(v: Seq<EnvelopeV>, k: int, n: int)
    requires
        0 <= k <= n,
        frames_spec(v, k) is Err,
    ensures
        frames_spec(v, n) == frames_spec(v, k),
    decreases n - k,
{
    if n > k {
        lemma_frames_stop(v, k, n - 1);
    }
}

/// The frames of outbound messages, in order; the first message that cannot
/// be framed stops with its error.
pub fn encode_outbound_frames(outbound: &[OutboundEnvelope]) -> (r: Result<Vec<OutboundFrame>, P2pError>)
    ensures
        match r {
            Ok(fs) => frames_spec(envelopes_view(outbound@), outbound@.len() as int) == Ok::<Seq<(Seq<char>, Seq<u8>)>, P2pErrorV>(frames_view(fs@)),
            Err(e) => frames_spec(envelopes_view(outbound@), outbound@.len() as int) == Err::<Seq<(Seq<char>, Seq<u8>)>, P2pErrorV>(e@),
        },
{
    let ghost ev = envelopes_view(outbound@);
    let mut out: Vec<OutboundFrame> = Vec::new();
    let mut i: usize = 0;
    proof { assert(frames_view(out@) =~= Seq::<(Seq<char>, Seq<u8>)>::empty()); }
    while i < outbound.len()
        invariant
            i <= outbound@.len(),
            ev == envelopes_view(outbound@),
            frames_spec(ev, i as int) == Ok::<Seq<(Seq<char>, Seq<u8>)>, P2pErrorV>(frames_view(out@)),
        decreases outbound.len() - i,
    {
        let item = &outbound[i];
        proof { assert(ev[i as int] == item@); }
        match FramedMessageCodec::encode_frame(&item.message) {
            Ok(bytes) => {
                let ghost before = frames_view(out@);
                let ghost bv = bytes@;
                out.push(OutboundFrame { target_peer_id: item.target_peer_id.clone(), bytes });
                proof { assert(frames_view(out@) =~= before.push((item@.target_peer_id, bv))); }
            },
            Err(e) => {
                proof { lemma_frames_stop(ev, i + 1, outbound@.len() as int); }
                return Err(e);
            },
        }
        i = i + 1;
    }
    Ok(out)
}

} // verus!
