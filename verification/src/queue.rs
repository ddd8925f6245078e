//! Ordered delivery of sequenced messages: messages may arrive in any order,
//! and are handed out in consecutive sequence order from the expected number.

use vstd::prelude::*;
use std::collections::{BTreeMap, VecDeque};
use std::time::{SystemTime, UNIX_EPOCH};
use crate::message::NetworkMessage;
use crate::p2p_error::P2pError;

verus! {

broadcast use {vstd::std_specs::btree::group_btree_axioms, vstd::laws_cmp::group_laws_cmp};

/// A message with its sequence number.
#[derive(Debug, Clone, PartialEq, Eq)]
pub struct SequencedMessage {
    /// Sender.
    pub peer_id: String,
    /// Sequence number within the connection.
    pub sequence: u64,
    /// Arrival time (seconds).
    pub received_at_secs: u64,
    /// The message.
    pub message: NetworkMessage,
}

/// Reads the clock: seconds since the Unix epoch, 0 if the clock is before it.
/// Nothing is stated of the value: it is the time.
#[verifier::external_body]
pub(crate) fn now_secs() -> u64 {
    SystemTime::now().duration_since(UNIX_EPOCH).map(|d| d.as_secs()).unwrap_or(0)
}

impl SequencedMessage {
    /// A message stamped with the current time.
    pub fn new(peer_id: &str, sequence: u64, message: NetworkMessage) -> (r: Self)
        ensures
            r.peer_id@ == peer_id@,
            r.sequence == sequence,
            r.message == message,
    {
        SequencedMessage { peer_id: String::from_str(peer_id), sequence, received_at_secs: now_secs(), message }
    }
}

/// Moves the consecutive messages from `next` on from `pending` to the end of `ready`.
pub open spec fn collect_spec(next: u64, pending: Map<u64, SequencedMessage>, ready: Seq<SequencedMessage>) -> (u64, Map<u64, SequencedMessage>, Seq<SequencedMessage>)
    decreases u64::MAX - next,
{
    if pending.contains_key(next) {
        if next == u64::MAX {
            (next, pending.remove(next), ready.push(pending[next]))
        } else {
            collect_spec((next + 1) as u64, pending.remove(next), ready.push(pending[next]))
        }
    } else {
        (next, pending, ready)
    }
}

/// A queue, viewed.
pub struct QueueV {
    pub expected: u64,
    pub waiting: Map<u64, SequencedMessage>,
    pub ready: Seq<SequencedMessage>,
}

/// A queue that hands out messages in sequence order.
pub struct OrderedMessageQueue {
    next_expected: u64,
    pending: BTreeMap<u64, SequencedMessage>,
    ready: VecDeque<SequencedMessage>,
}

/// Every pending message sits under its own sequence number, which is above the expected one.
pub open spec fn queue_wf(next: u64, pending: Map<u64, SequencedMessage>) -> bool {
    forall|k: u64| #[trigger] pending.contains_key(k) ==> pending[k].sequence == k && k > next
}

/// Every pending message sits under its own sequence number, which is not below `next`.
pub open spec fn waiting_from(next: u64, pending: Map<u64, SequencedMessage>) -> bool {
    forall|k: u64| #[trigger] pending.contains_key(k) ==> pending[k].sequence == k && k >= next
}

impl View for OrderedMessageQueue {
    type V = QueueV;

    closed spec fn view(&self) -> QueueV {
        QueueV { expected: self.next_expected, waiting: self.pending@, ready: self.ready@ }
    }
}

impl OrderedMessageQueue {
    /// The queue's view is made of its three parts.
    pub proof fn lemma_view(&self)
        ensures
            self@ == (QueueV { expected: self.expected(), waiting: self.waiting(), ready: self.ready_seq() }),
    {
    }

    /// The next sequence number expected.
    pub closed spec fn expected(&self) -> u64 {
        self.next_expected
    }

    /// Messages waiting for earlier ones, by sequence number.
    pub closed spec fn waiting(&self) -> Map<u64, SequencedMessage> {
        self.pending@
    }

    /// Messages ready to be handed out, in order.
    pub closed spec fn ready_seq(&self) -> Seq<SequencedMessage> {
        self.ready@
    }

    /// An empty queue that expects `next_expected` first.
    pub fn new(next_expected: u64) -> (r: Self)
        ensures
            r.expected() == next_expected,
            r.waiting() == Map::<u64, SequencedMessage>::empty(),
            r.ready_seq() == Seq::<SequencedMessage>::empty(),
            queue_wf(r.expected(), r.waiting()),
    {
        OrderedMessageQueue { next_expected, pending: BTreeMap::new(), ready: VecDeque::new() }
    }

    /// The next sequence number expected.
    pub fn next_expected(&self) -> (r: u64)
        ensures
            r == self.expected(),
    {
        self.next_expected
    }

    /// Moves the consecutive pending messages to the ready queue.
    fn collect_ready(&mut self)
        ensures
            (final(self).expected(), final(self).waiting(), final(self).ready_seq()) == collect_spec(old(self).expected(), old(self).waiting(), old(self).ready_seq()),
    {
        loop
            invariant
                collect_spec(old(self).expected(), old(self).waiting(), old(self).ready_seq()) == collect_spec(self.next_expected, self.pending@, self.ready@),
            decreases u64::MAX - self.next_expected,
        {
            let key = self.next_expected;
            match self.pending.remove(&key) {
                Some(msg) => {
                    self.ready.push_back(msg);
                    if self.next_expected == u64::MAX {
                        return;
                    }
                    self.next_expected = self.next_expected + 1;
                },
                None => {
                    return;
                },
            }
        }
    }

    /// Accepts a message; refuses one whose sequence number is below the
    /// expected one. A message whose number is already waiting is dropped.
    pub fn push(&mut self, msg: SequencedMessage) -> (r: Result<(), P2pError>)
        ensures
            msg.sequence < old(self).expected() ==> r == Err::<(), P2pError>(P2pError::StaleSequence { seq: msg.sequence, expected: old(self).expected() })
                && final(self).expected() == old(self).expected() && final(self).waiting() == old(self).waiting() && final(self).ready_seq() == old(self).ready_seq(),
            msg.sequence >= old(self).expected() ==> r is Ok && (final(self).expected(), final(self).waiting(), final(self).ready_seq()) == collect_spec(
                old(self).expected(),
                if old(self).waiting().contains_key(msg.sequence) { old(self).waiting() } else { old(self).waiting().insert(msg.sequence, msg) },
                old(self).ready_seq(),
            ),
            queue_wf(old(self).expected(), old(self).waiting()) ==> queue_wf(final(self).expected(), final(self).waiting()),
    {
        if msg.sequence < self.next_expected {
            return Err(P2pError::StaleSequence { seq: msg.sequence, expected: self.next_expected });
        }
        let ghost start_next = self.next_expected;
        let key = msg.sequence;
        if !self.pending.contains_key(&key) {
            self.pending.insert(key, msg);
        }
        proof {
            if queue_wf(old(self).expected(), old(self).waiting()) {
                assert(waiting_from(self.next_expected, self.pending@));
            }
        }
        let ghost mid_pending = self.pending@;
        self.collect_ready();
        proof {
            if waiting_from(start_next, mid_pending) {
                lemma_collect_keeps_wf(start_next, mid_pending, old(self).ready_seq());
            }
        }
        Ok(())
    }

    /// Hands out the first ready message.
    pub fn pop_ready(&mut self) -> (r: Option<SequencedMessage>)
        ensures
            final(self).expected() == old(self).expected(),
            final(self).waiting() == old(self).waiting(),
            match r {
                Some(m) => old(self).ready_seq().len() > 0 && m == old(self).ready_seq()[0]
                    && final(self).ready_seq() == old(self).ready_seq().drop_first(),
                None => old(self).ready_seq().len() == 0 && final(self).ready_seq() == old(self).ready_seq(),
            },
    {
        let r = self.ready.pop_front();
        proof {
            if r is Some {
                assert(self.ready@ =~= old(self).ready_seq().drop_first());
            }
        }
        r
    }

    /// Hands out every ready message, in order.
    pub fn pop_all_ready(&mut self) -> (r: Vec<SequencedMessage>)
        ensures
            r@ == old(self).ready_seq(),
            final(self).ready_seq() == Seq::<SequencedMessage>::empty(),
            final(self).expected() == old(self).expected(),
            final(self).waiting() == old(self).waiting(),
    {
        let mut out: Vec<SequencedMessage> = Vec::new();
        while self.ready.len() > 0
            invariant
                out@ + self.ready@ == old(self).ready_seq(),
                self.next_expected == old(self).expected(),
                self.pending@ == old(self).waiting(),
            decreases self.ready@.len(),
        {
            let ghost before = self.ready@;
            match self.ready.pop_front() {
                Some(m) => {
                    out.push(m);
                    proof { assert(out@ + self.ready@ =~= old(self).ready_seq()); }
                },
                None => {},
            }
        }
        proof { assert(out@ + self.ready@ =~= out@); }
        out
    }

    /// Number of messages waiting for earlier ones.
    pub fn pending_len(&self) -> (r: usize)
        ensures
            r == self.waiting().len(),
    {
        self.pending.len()
    }

    /// Number of messages ready.
    pub fn ready_len(&self) -> (r: usize)
        ensures
            r == self.ready_seq().len(),
    {
        self.ready.len()
    }
}

/// Collecting leaves every pending message above the expected number.
proof fn lemma_collect_keeps_wf(next: u64, pending: Map<u64, SequencedMessage>, ready: Seq<SequencedMessage>)
    requires
        waiting_from(next, pending),
    ensures
        queue_wf(collect_spec(next, pending, ready).0, collect_spec(next, pending, ready).1),
    decreases u64::MAX - next,
{
    if pending.contains_key(next) {
        if next == u64::MAX {
            let p2 = pending.remove(next);
            assert forall|k: u64| #[trigger] p2.contains_key(k) implies p2[k].sequence == k && k > next by {
                assert(pending.contains_key(k));
            }
        } else {
            let p2 = pending.remove(next);
            assert forall|k: u64| #[trigger] p2.contains_key(k) implies p2[k].sequence == k && k >= next + 1 by {
                assert(pending.contains_key(k));
            }
            lemma_collect_keeps_wf((next + 1) as u64, p2, ready.push(pending[next]));
        }
    } else {
        assert forall|k: u64| #[trigger] pending.contains_key(k) implies pending[k].sequence == k && k > next by {}
    }
}

} // verus!
