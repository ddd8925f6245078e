//! Registry of known peers, with Kademlia-style distances: a peer's routing
//! key is the SHA-256 digest of its id, and the distance between two ids is
//! the bitwise XOR of their keys.
//!
//! A peer's view leaves out `last_seen_secs`: it is the time of the last
//! update, which only the clock decides.

use vstd::prelude::*;
use vstd::utf8::encode_utf8;
use crate::hash::{sha256, sha256_digest, hex_encode, hex_lower};
use crate::order::{lex_lt, bytes_key, chars_key, lemma_lex_irreflexive, lemma_lex_transitive, lemma_lex_total, lemma_chars_key_injective, lex_less_bytes, lex_less_chars};
use crate::queue::now_secs;
use crate::text::{is_blank, is_blank_seq, chars_of};

verus! {

/// Connection state of a peer.
#[derive(Debug, Clone, Copy, PartialEq, Eq, Structural)]
pub enum PeerStatus {
    /// Handshake not done yet.
    Connecting,
    /// Connected.
    Connected,
    /// Disconnected for now.
    Disconnected,
}

/// What is known of a peer.
#[derive(Debug, Clone, PartialEq, Eq)]
pub struct PeerInfo {
    /// Node id.
    pub id: String,
    /// Network address.
    pub address: String,
    /// Best known height.
    pub best_height: u64,
    /// Best known hash.
    pub best_hash: String,
    /// Connection state.
    pub status: PeerStatus,
    /// Time of the last update (seconds).
    pub last_seen_secs: u64,
    /// Last measured round trip (milliseconds).
    pub latency_ms: Option<u64>,
}

/// A peer, viewed (without the time of its last update).
pub struct PeerInfoV {
    pub id: Seq<char>,
    pub address: Seq<char>,
    pub best_height: u64,
    pub best_hash: Seq<char>,
    pub status: PeerStatus,
    pub latency_ms: Option<u64>,
}

impl View for PeerInfo {
    type V = PeerInfoV;

    open spec fn view(&self) -> PeerInfoV {
        PeerInfoV {
            id: self.id@,
            address: self.address@,
            best_height: self.best_height,
            best_hash: self.best_hash@,
            status: self.status,
            latency_ms: self.latency_ms,
        }
    }
}

/// A peer with its distance to a target.
#[derive(Debug, Clone, PartialEq, Eq)]
pub struct PeerDistance {
    /// The peer.
    pub peer: PeerInfo,
    /// XOR distance to the target, in hexadecimal.
    pub xor_distance_hex: String,
}

/// A DHT bucket.
#[derive(Debug, Clone, PartialEq, Eq)]
pub struct DhtBucket {
    /// Bucket index (higher is closer).
    pub bucket_index: u8,
    /// Ids of the peers in the bucket, in order.
    pub peer_ids: Vec<String>,
}

/// A peer seen for the first time.
pub open spec fn fresh_peer(id: Seq<char>, address: Seq<char>) -> PeerInfoV {
    PeerInfoV { id, address, best_height: 0, best_hash: Seq::empty(), status: PeerStatus::Connecting, latency_ms: None }
}

/// A copy of a peer record.
pub fn copy_peer(p: &PeerInfo) -> (r: PeerInfo)
    ensures
        r@ == p@,
        r.last_seen_secs == p.last_seen_secs,
{
    PeerInfo {
        id: p.id.clone(),
        address: p.address.clone(),
        best_height: p.best_height,
        best_hash: p.best_hash.clone(),
        status: p.status,
        last_seen_secs: p.last_seen_secs,
        latency_ms: p.latency_ms,
    }
}

impl PeerInfo {
    /// A peer record for a peer seen now.
    pub fn new(id: &str, address: &str) -> (r: Self)
        ensures
            r@ == fresh_peer(id@, address@),
    {
        PeerInfo {
            id: String::from_str(id),
            address: String::from_str(address),
            best_height: 0,
            best_hash: String::new(),
            status: PeerStatus::Connecting,
            last_seen_secs: now_secs(),
            latency_ms: None,
        }
    }

    /// Records the peer's chain tip.
    pub fn update_chain_tip(&mut self, best_height: u64, best_hash: &str)
        ensures
            final(self)@ == (PeerInfoV { best_height, best_hash: best_hash@, ..old(self)@ }),
    {
        self.best_height = best_height;
        self.best_hash = String::from_str(best_hash);
        self.last_seen_secs = now_secs();
    }

    /// Records a heartbeat: the peer is connected.
    pub fn mark_alive(&mut self, latency_ms: Option<u64>)
        ensures
            final(self)@ == (PeerInfoV { status: PeerStatus::Connected, latency_ms, ..old(self)@ }),
    {
        self.status = PeerStatus::Connected;
        self.latency_ms = latency_ms;
        self.last_seen_secs = now_secs();
    }
}

/// The first position of a peer with id `id`, or `None`.
pub open spec fn peer_index(s: Seq<PeerInfoV>, id: Seq<char>) -> Option<int> {
    if exists|i: int| 0 <= i < s.len() && #[trigger] s[i].id == id {
        Some(choose|i: int| 0 <= i < s.len() && #[trigger] s[i].id == id)
    } else {
        None
    }
}

/// No two peers share an id.
pub open spec fn ids_unique(s: Seq<PeerInfoV>) -> bool {
    forall|i: int, j: int| 0 <= i < s.len() && 0 <= j < s.len() && i != j ==> #[trigger] s[i].id != #[trigger] s[j].id
}

/// Registering a peer: its address is updated, or it is added at the end.
pub open spec fn upsert_spec(s: Seq<PeerInfoV>, id: Seq<char>, address: Seq<char>) -> Seq<PeerInfoV> {
    match peer_index(s, id) {
        Some(i) => s.update(i, PeerInfoV { address, ..s[i] }),
        None => s.push(fresh_peer(id, address)),
    }
}

/// The peers that are connected, in order.
pub open spec fn connected_only(s: Seq<PeerInfoV>) -> Seq<PeerInfoV>
    decreases s.len(),
{
    if s.len() == 0 {
        Seq::empty()
    } else if s.last().status == PeerStatus::Connected {
        connected_only(s.drop_last()).push(s.last())
    } else {
        connected_only(s.drop_last())
    }
}

/// The routing key of a node id.
pub open spec fn node_digest(id: Seq<char>) -> Seq<u8> {
    sha256_digest(encode_utf8(id))
}

/// Bytewise XOR of two byte strings of the same length.
pub open spec fn xor_seq(a: Seq<u8>, b: Seq<u8>) -> Seq<u8> {
    Seq::new(a.len(), |i: int| a[i] ^ b[i])
}

/// XOR distance between a target and a node id.
pub open spec fn distance(target: Seq<char>, id: Seq<char>) -> Seq<u8> {
    xor_seq(node_digest(target), node_digest(id))
}

/// Peers closer to the target come first; equal distances go by id.
pub open spec fn closer(target: Seq<char>, a: Seq<char>, b: Seq<char>) -> bool {
    ||| lex_lt(bytes_key(distance(target, a)), bytes_key(distance(target, b)))
    ||| (bytes_key(distance(target, a)) == bytes_key(distance(target, b)) && lex_lt(chars_key(a), chars_key(b)))
}

/// Leading zero bits of a byte.
pub open spec fn byte_leading_zeros(b: u8) -> nat {
    if b >= 128 { 0 }
    else if b >= 64 { 1 }
    else if b >= 32 { 2 }
    else if b >= 16 { 3 }
    else if b >= 8 { 4 }
    else if b >= 4 { 5 }
    else if b >= 2 { 6 }
    else if b >= 1 { 7 }
    else { 8 }
}

/// Leading zero bits of a byte string.
pub open spec fn leading_zeros_spec(s: Seq<u8>) -> nat
    decreases s.len(),
{
    if s.len() == 0 {
        0
    } else if s[0] == 0 {
        8 + leading_zeros_spec(s.drop_first())
    } else {
        byte_leading_zeros(s[0])
    }
}

/// The bucket of a peer for a target: its distance's leading zero bits, capped.
pub open spec fn bucket_of(target: Seq<char>, id: Seq<char>, bucket_count: u8) -> u8 {
    let z = leading_zeros_spec(distance(target, id));
    if z < bucket_count - 1 { z as u8 } else { (bucket_count - 1) as u8 }
}

/// Ids of the peers in a bucket.
pub open spec fn bucket_members(s: Seq<PeerInfoV>, target: Seq<char>, bucket_count: u8, b: u8) -> Set<Seq<char>> {
    Set::new(|id: Seq<char>| exists|i: int| 0 <= i < s.len() && #[trigger] s[i].id == id && bucket_of(target, id, bucket_count) == b)
}

/// Strictly increasing ids.
pub open spec fn ids_sorted(ids: Seq<Seq<char>>) -> bool {
    forall|a: int, b: int| 0 <= a < b < ids.len() ==> lex_lt(chars_key(#[trigger] ids[a]), chars_key(#[trigger] ids[b]))
}

/// Strings, viewed.
pub open spec fn strings_view(v: Seq<String>) -> Seq<Seq<char>> {
    v.map_values(|s: String| s@)
}

/// Digest of a node id.
fn digest_node_id(node_id: &str) -> (r: Vec<u8>)
    ensures
        r@ == node_digest(node_id@),
        r@.len() == 32,
{
    sha256(node_id.as_bytes())
}

/// Bytewise XOR of two digests.
fn xor_distance_bytes(left: &Vec<u8>, right: &Vec<u8>) -> (r: Vec<u8>)
    requires
        left@.len() == 32,
        right@.len() == 32,
    ensures
        r@ == xor_seq(left@, right@),
        r@.len() == 32,
{
    let mut out: Vec<u8> = Vec::new();
    let mut i: usize = 0;
    while i < 32
        invariant
            i <= 32,
            left@.len() == 32,
            right@.len() == 32,
            out@ == xor_seq(left@, right@).subrange(0, i as int),
        decreases 32 - i,
    {
        out.push(left[i] ^ right[i]);
        i = i + 1;
        proof { assert(out@ =~= xor_seq(left@, right@).subrange(0, i as int)); }
    }
    proof { assert(out@ =~= xor_seq(left@, right@)); }
    out
}

/// Leading zero bits of a byte.
fn byte_zeros(b: u8) -> (r: usize)
    ensures
        r == byte_leading_zeros(b),
{
    if b >= 128 { 0 }
    else if b >= 64 { 1 }
    else if b >= 32 { 2 }
    else if b >= 16 { 3 }
    else if b >= 8 { 4 }
    else if b >= 4 { 5 }
    else if b >= 2 { 6 }
    else if b >= 1 { 7 }
    else { 8 }
}

/// Leading zero bits of a byte string.
fn leading_zero_bits(raw: &Vec<u8>) -> (r: usize)
    requires
        raw@.len() <= 32,
    ensures
        r == leading_zeros_spec(raw@),
        r <= 8 * raw@.len(),
{
    let mut count: usize = 0;
    let mut i: usize = 0;
    proof { assert(raw@.skip(0) =~= raw@); }
    while i < raw.len()
        invariant
            i <= raw@.len() <= 32,
            count == 8 * i,
            leading_zeros_spec(raw@) == count + leading_zeros_spec(raw@.skip(i as int)),
        decreases raw.len() - i,
    {
        let b = raw[i];
        proof {
            assert(raw@.skip(i as int)[0] == b);
            assert(raw@.skip(i as int).drop_first() =~= raw@.skip(i + 1));
        }
        if b != 0 {
            return count + byte_zeros(b);
        }
        count = count + 8;
        i = i + 1;
    }
    proof { assert(raw@.skip(i as int) =~= Seq::<u8>::empty()); }
    count
}

/// A sort key: a byte string, then a string.
pub type SortKey = (Seq<u8>, Seq<char>);

/// Order on sort keys: by the bytes, then by the string.
pub open spec fn key_lt(a: SortKey, b: SortKey) -> bool {
    ||| lex_lt(bytes_key(a.0), bytes_key(b.0))
    ||| (bytes_key(a.0) == bytes_key(b.0) && lex_lt(chars_key(a.1), chars_key(b.1)))
}

/// The sort key of a peer for a target.
pub open spec fn peer_key(target: Seq<char>, id: Seq<char>) -> SortKey {
    (distance(target, id), id)
}

/// Keys with different strings are ordered one way or the other, never both.
proof fn lemma_key_order(a: SortKey, b: SortKey, c: SortKey)
    ensures
        !key_lt(a, a),
        key_lt(a, b) && key_lt(b, c) ==> key_lt(a, c),
        a.1 != b.1 ==> (key_lt(a, b) || key_lt(b, a)),
        key_lt(a, b) ==> !key_lt(b, a),
{
    lemma_lex_irreflexive(bytes_key(a.0));
    lemma_lex_irreflexive(chars_key(a.1));
    if key_lt(a, b) && key_lt(b, c) {
        if lex_lt(bytes_key(a.0), bytes_key(b.0)) && lex_lt(bytes_key(b.0), bytes_key(c.0)) {
            lemma_lex_transitive(bytes_key(a.0), bytes_key(b.0), bytes_key(c.0));
        } else if lex_lt(chars_key(a.1), chars_key(b.1)) && lex_lt(chars_key(b.1), chars_key(c.1)) && bytes_key(a.0) == bytes_key(b.0) && bytes_key(b.0) == bytes_key(c.0) {
            lemma_lex_transitive(chars_key(a.1), chars_key(b.1), chars_key(c.1));
        }
    }
    if a.1 != b.1 {
        if chars_key(a.1) == chars_key(b.1) {
            lemma_chars_key_injective(a.1, b.1);
        }
        lemma_lex_total(chars_key(a.1), chars_key(b.1));
        if bytes_key(a.0) != bytes_key(b.0) {
            lemma_lex_total(bytes_key(a.0), bytes_key(b.0));
        }
    }
    if key_lt(a, b) && key_lt(b, a) {
        if lex_lt(bytes_key(a.0), bytes_key(b.0)) && lex_lt(bytes_key(b.0), bytes_key(a.0)) {
            lemma_lex_transitive(bytes_key(a.0), bytes_key(b.0), bytes_key(a.0));
        } else if lex_lt(chars_key(a.1), chars_key(b.1)) && lex_lt(chars_key(b.1), chars_key(a.1)) {
            lemma_lex_transitive(chars_key(a.1), chars_key(b.1), chars_key(a.1));
        }
    }
}

/// Keys, viewed.
pub open spec fn keys_view(keys: Seq<(Vec<u8>, Vec<char>)>) -> Seq<SortKey> {
    keys.map_values(|k: (Vec<u8>, Vec<char>)| (k.0@, k.1@))
}

/// `i` is one of the entries of `perm`.
pub open spec fn listed(perm: Seq<usize>, i: int) -> bool {
    exists|a: int| 0 <= a < perm.len() && #[trigger] perm[a] == i
}

/// `perm` lists each of `0..n` once.
pub open spec fn is_perm(perm: Seq<usize>, n: int) -> bool {
    &&& perm.len() == n
    &&& forall|a: int| 0 <= a < perm.len() ==> #[trigger] perm[a] < n
    &&& forall|a: int, b: int| 0 <= a < perm.len() && 0 <= b < perm.len() && a != b ==> #[trigger] perm[a] != #[trigger] perm[b]
    &&& forall|i: int| 0 <= i < n ==> #[trigger] listed(perm, i)
}

/// The keys at the positions of `perm` increase strictly.
pub open spec fn sorted_by(perm: Seq<usize>, k: Seq<SortKey>) -> bool {
    forall|a: int, b: int| 0 <= a < b < perm.len() ==> key_lt(k[#[trigger] perm[a] as int], k[#[trigger] perm[b] as int])
}

/// Whether key `a` comes before key `b`.
fn key_less(a: &(Vec<u8>, Vec<char>), b: &(Vec<u8>, Vec<char>)) -> (r: bool)
    ensures
        r == key_lt((a.0@, a.1@), (b.0@, b.1@)),
{
    if lex_less_bytes(a.0.as_slice(), b.0.as_slice()) {
        return true;
    }
    if lex_less_bytes(b.0.as_slice(), a.0.as_slice()) {
        proof { lemma_key_order((a.0@, a.1@), (b.0@, b.1@), (a.0@, a.1@)); lemma_lex_irreflexive(bytes_key(a.0@)); }
        return false;
    }
    proof {
        if bytes_key(a.0@) != bytes_key(b.0@) {
            lemma_lex_total(bytes_key(a.0@), bytes_key(b.0@));
        }
    }
    lex_less_chars(a.1.as_slice(), b.1.as_slice())
}

/// Positions `0..keys.len()` ordered by their keys (strings all different).
fn sort_by_key(keys: &Vec<(Vec<u8>, Vec<char>)>) -> (perm: Vec<usize>)
    requires
        forall|i: int, j: int| 0 <= i < keys@.len() && 0 <= j < keys@.len() && i != j ==> #[trigger] keys@[i].1@ != #[trigger] keys@[j].1@,
    ensures
        is_perm(perm@, keys@.len() as int),
        sorted_by(perm@, keys_view(keys@)),
{
    let ghost kv = keys_view(keys@);
    let mut perm: Vec<usize> = Vec::new();
    let mut i: usize = 0;
    while i < keys.len()
        invariant
            i <= keys@.len(),
            kv == keys_view(keys@),
            forall|x: int, y: int| 0 <= x < keys@.len() && 0 <= y < keys@.len() && x != y ==> #[trigger] keys@[x].1@ != #[trigger] keys@[y].1@,
            is_perm(perm@, i as int),
            sorted_by(perm@, kv),
        decreases keys.len() - i,
    {
        let mut pos: usize = 0;
        while pos < perm.len() && key_less(&keys[perm[pos]], &keys[i])
            invariant
                pos <= perm@.len(),
                i < keys@.len(),
                kv == keys_view(keys@),
                is_perm(perm@, i as int),
                forall|a: int| 0 <= a < pos ==> key_lt(kv[#[trigger] perm@[a] as int], kv[i as int]),
            decreases perm.len() - pos,
        {
            pos = pos + 1;
        }
        proof {
            if pos < perm.len() {
                let q = perm@[pos as int] as int;
                assert(kv[q].1 != kv[i as int].1) by {
                    assert(keys@[q].1@ != keys@[i as int].1@);
                }
                lemma_key_order(kv[q], kv[i as int], kv[q]);
                lemma_key_order(kv[i as int], kv[q], kv[i as int]);
                assert(key_lt(kv[i as int], kv[q]));
            }
        }
        let ghost old_perm = perm@;
        perm.insert(pos, i);
        proof {
            let np = perm@;
            assert(np == old_perm.insert(pos as int, i));
            assert forall|a: int, b: int| 0 <= a < b < np.len() implies key_lt(kv[#[trigger] np[a] as int], kv[#[trigger] np[b] as int]) by {
                if b < pos {
                    assert(np[a] == old_perm[a] && np[b] == old_perm[b]);
                } else if b == pos {
                    assert(np[a] == old_perm[a]);
                } else if a == pos {
                    assert(np[b] == old_perm[b - 1]);
                    if b - 1 > pos {
                        let q = old_perm[pos as int] as int;
                        assert(key_lt(kv[q], kv[old_perm[b - 1] as int]));
                        lemma_key_order(kv[i as int], kv[q], kv[old_perm[b - 1] as int]);
                    }
                } else if a < pos {
                    assert(np[a] == old_perm[a] && np[b] == old_perm[b - 1]);
                } else {
                    assert(np[a] == old_perm[a - 1] && np[b] == old_perm[b - 1]);
                }
            }
            assert forall|j: int| 0 <= j < i + 1 implies #[trigger] listed(np, j) by {
                if j == i {
                    assert(np[pos as int] == j);
                } else {
                    assert(listed(old_perm, j));
                    let a0 = choose|a: int| 0 <= a < old_perm.len() && #[trigger] old_perm[a] == j;
                    if a0 < pos {
                        assert(np[a0] == j);
                    } else {
                        assert(np[a0 + 1] == j);
                    }
                }
            }
            assert forall|a: int, b: int| 0 <= a < np.len() && 0 <= b < np.len() && a != b implies #[trigger] np[a] != #[trigger] np[b] by {
                let oa = if a < pos { a } else { a - 1 };
                let ob = if b < pos { b } else { b - 1 };
                if a != pos && b != pos {
                    assert(np[a] == old_perm[oa] && np[b] == old_perm[ob]);
                } else if a == pos {
                    assert(np[b] == old_perm[ob]);
                } else {
                    assert(np[a] == old_perm[oa]);
                }
            }
            assert forall|a: int| 0 <= a < np.len() implies #[trigger] np[a] < i + 1 by {
                if a < pos {
                    assert(np[a] == old_perm[a]);
                } else if a > pos {
                    assert(np[a] == old_perm[a - 1]);
                }
            }
        }
        i = i + 1;
    }
    perm
}

/// Distances, viewed: the peer and the hexadecimal distance.
pub open spec fn distances_view(r: Seq<PeerDistance>) -> Seq<(PeerInfoV, Seq<char>)> {
    r.map_values(|d: PeerDistance| (d.peer@, d.xor_distance_hex@))
}

/// `r` lists the `limit` peers closest to the target (all of them if fewer),
/// closest first, each with its distance in hexadecimal; nothing for a blank
/// target or a zero limit.
pub open spec fn nearest_ok(s: Seq<PeerInfoV>, target: Seq<char>, limit: usize, r: Seq<(PeerInfoV, Seq<char>)>) -> bool {
    if is_blank_seq(target) || limit == 0 {
        r.len() == 0
    } else {
        &&& r.len() == (if limit < s.len() { limit as int } else { s.len() as int })
        &&& forall|k: int| 0 <= k < r.len() ==> s.contains(#[trigger] r[k].0)
        &&& forall|k: int| 0 <= k < r.len() ==> (#[trigger] r[k]).1 == hex_lower(distance(target, r[k].0.id))
        &&& forall|a: int, b: int| 0 <= a < b < r.len() ==> key_lt(peer_key(target, #[trigger] r[a].0.id), peer_key(target, #[trigger] r[b].0.id))
        &&& forall|i: int| 0 <= i < s.len() && left_out(r, #[trigger] s[i].id) ==> forall|k: int| 0 <= k < r.len() ==> key_lt(peer_key(target, #[trigger] r[k].0.id), peer_key(target, s[i].id))
    }
}

/// No entry of `r` is the peer with id `id`.
pub open spec fn left_out(r: Seq<(PeerInfoV, Seq<char>)>, id: Seq<char>) -> bool {
    forall|k: int| 0 <= k < r.len() ==> (#[trigger] r[k]).0.id != id
}

/// Buckets, viewed: the index and the ids.
pub open spec fn buckets_view(r: Seq<DhtBucket>) -> Seq<(u8, Seq<Seq<char>>)> {
    r.map_values(|b: DhtBucket| (b.bucket_index, strings_view(b.peer_ids@)))
}

/// Peer `i` is listed in one of the buckets of `r`, the one of its index.
pub open spec fn in_buckets(r: Seq<(u8, Seq<Seq<char>>)>, id: Seq<char>, b: u8) -> bool {
    exists|k: int, m: int| 0 <= k < r.len() && 0 <= m < r[k].1.len() && #[trigger] r[k].1[m] == id && r[k].0 == b
}

/// Some peer has id `id` and lies in bucket `b`.
pub open spec fn from_bucket(s: Seq<PeerInfoV>, target: Seq<char>, count: u8, id: Seq<char>, b: u8) -> bool {
    exists|i: int| 0 <= i < s.len() && #[trigger] s[i].id == id && bucket_of(target, id, count) == b
}

/// `r` groups the peers by bucket: buckets closest first, none empty, ids in
/// order within a bucket, every peer in the bucket of its index; nothing for
/// a blank target or no buckets.
pub open spec fn buckets_ok(s: Seq<PeerInfoV>, target: Seq<char>, count: u8, r: Seq<(u8, Seq<Seq<char>>)>) -> bool {
    if is_blank_seq(target) || count == 0 {
        r.len() == 0
    } else {
        &&& forall|a: int, b: int| 0 <= a < b < r.len() ==> (#[trigger] r[a]).0 > (#[trigger] r[b]).0
        &&& forall|k: int| 0 <= k < r.len() ==> (#[trigger] r[k]).1.len() > 0 && ids_sorted(r[k].1)
        &&& forall|k: int, m: int| 0 <= k < r.len() && 0 <= m < r[k].1.len() ==> from_bucket(s, target, count, #[trigger] r[k].1[m], r[k].0)
        &&& forall|i: int| 0 <= i < s.len() ==> in_buckets(r, #[trigger] s[i].id, bucket_of(target, s[i].id, count))
    }
}

/// The registry of known peers.
pub struct PeerRegistry {
    peers: Vec<PeerInfo>,
}

impl View for PeerRegistry {
    type V = Seq<PeerInfoV>;

    closed spec fn view(&self) -> Seq<PeerInfoV> {
        self.peers@.map_values(|p: PeerInfo| p@)
    }
}

impl PeerRegistry {
    /// Well-formedness: no two peers share an id.
    pub open spec fn wf(&self) -> bool {
        ids_unique(self@)
    }

    /// An empty registry.
    pub fn new() -> (r: Self)
        ensures
            r@ == Seq::<PeerInfoV>::empty(),
            r.wf(),
    {
        let r = PeerRegistry { peers: Vec::new() };
        assert(r@ =~= Seq::<PeerInfoV>::empty());
        r
    }

    /// Position of the peer with id `id`.
    fn find(&self, id: &str) -> (r: Option<usize>)
        requires
            self.wf(),
        ensures
            match r {
                Some(i) => i < self@.len() && peer_index(self@, id@) == Some(i as int),
                None => peer_index(self@, id@) is None,
            },
    {
        let mut i: usize = 0;
        while i < self.peers.len()
            invariant
                i <= self.peers@.len(),
                self@.len() == self.peers@.len(),
                self.wf(),
                forall|j: int| 0 <= j < i ==> #[trigger] self@[j].id != id@,
            decreases self.peers.len() - i,
        {
            proof { assert(self@[i as int] == self.peers@[i as int]@); }
            if self.peers[i].id == String::from_str(id) {
                proof {
                    assert(self@[i as int].id == id@);
                    let j = choose|j: int| 0 <= j < self@.len() && #[trigger] self@[j].id == id@;
                    assert(self@[j].id == id@);
                }
                return Some(i);
            }
            i = i + 1;
        }
        None
    }

    /// Registers a peer, or updates the address of a known one; returns its record.
    pub fn upsert(&mut self, id: &str, address: &str) -> (r: &PeerInfo)
        requires
            old(self).wf(),
        ensures
            final(self)@ == upsert_spec(old(self)@, id@, address@),
            final(self).wf(),
            r@.id == id@,
            r@.address == address@,
            peer_index(final(self)@, id@) is Some,
            r@ == final(self)@[peer_index(final(self)@, id@)->0],
    {
        let ghost before = self@;
        let i = match self.find(id) {
            Some(i) => {
                let old_p = copy_peer(&self.peers[i]);
                let p = PeerInfo {
                    id: old_p.id,
                    address: String::from_str(address),
                    best_height: old_p.best_height,
                    best_hash: old_p.best_hash,
                    status: old_p.status,
                    last_seen_secs: now_secs(),
                    latency_ms: old_p.latency_ms,
                };
                self.peers.set(i, p);
                proof {
                    assert(self@ =~= before.update(i as int, PeerInfoV { address: address@, ..before[i as int] }));
                    assert(ids_unique(self@)) by {
                        assert forall|a: int, b: int| 0 <= a < self@.len() && 0 <= b < self@.len() && a != b implies #[trigger] self@[a].id != #[trigger] self@[b].id by {
                            assert(self@[a].id == before[a].id && self@[b].id == before[b].id);
                        }
                    }
                }
                i
            },
            None => {
                let p = PeerInfo::new(id, address);
                let n = self.peers.len();
                self.peers.push(p);
                proof {
                    assert(self@ =~= before.push(fresh_peer(id@, address@)));
                    assert(ids_unique(self@)) by {
                        assert forall|a: int, b: int| 0 <= a < self@.len() && 0 <= b < self@.len() && a != b implies #[trigger] self@[a].id != #[trigger] self@[b].id by {
                            if a < before.len() && b < before.len() {
                                assert(self@[a].id == before[a].id && self@[b].id == before[b].id);
                            } else if a < before.len() {
                                assert(self@[a].id == before[a].id);
                            } else {
                                assert(self@[b].id == before[b].id);
                            }
                        }
                    }
                }
                n
            },
        };
        proof {
            assert(self@[i as int] == self.peers@[i as int]@);
            assert(self@[i as int].id == id@);
            let k = choose|k: int| 0 <= k < self@.len() && #[trigger] self@[k].id == id@;
            assert(ids_unique(self@));
            assert(k == i);
        }
        &self.peers[i]
    }

    /// The peer with id `id`.
    pub fn get(&self, id: &str) -> (r: Option<&PeerInfo>)
        requires
            self.wf(),
        ensures
            match r {
                Some(p) => peer_index(self@, id@) is Some && p@ == self@[peer_index(self@, id@)->0],
                None => peer_index(self@, id@) is None,
            },
    {
        match self.find(id) {
            Some(i) => {
                proof { assert(self@[i as int] == self.peers@[i as int]@); }
                Some(&self.peers[i])
            },
            None => None,
        }
    }

    /// The peer with id `id`, to update in place.
    pub fn get_mut(&mut self, id: &str) -> (r: Option<&mut PeerInfo>)
        requires
            old(self).wf(),
        ensures
            match r {
                Some(p) => peer_index(old(self)@, id@) is Some
                    && (*p)@ == old(self)@[peer_index(old(self)@, id@)->0]
                    && final(self)@ == old(self)@.update(peer_index(old(self)@, id@)->0, final(p)@),
                None => peer_index(old(self)@, id@) is None && final(self)@ == old(self)@,
            },
    {
        match self.find(id) {
            Some(i) => {
                proof { assert(self@[i as int] == self.peers@[i as int]@); }
                Some(&mut self.peers[i])
            },
            None => None,
        }
    }

    /// Number of peers.
    pub fn len(&self) -> (r: usize)
        ensures
            r == self@.len(),
    {
        self.peers.len()
    }

    /// Whether no peer is known.
    pub fn is_empty(&self) -> (r: bool)
        ensures
            r == (self@.len() == 0),
    {
        self.peers.len() == 0
    }

    /// The connected peers, in registration order.
    pub fn connected_peers(&self) -> (r: Vec<&PeerInfo>)
        ensures
            r@.map_values(|p: &PeerInfo| p@) == connected_only(self@),
    {
        let mut out: Vec<&PeerInfo> = Vec::new();
        let mut i: usize = 0;
        while i < self.peers.len()
            invariant
                i <= self.peers@.len(),
                self@.len() == self.peers@.len(),
                out@.map_values(|p: &PeerInfo| p@) == connected_only(self@.subrange(0, i as int)),
            decreases self.peers.len() - i,
        {
            let p = &self.peers[i];
            let ghost before = out@.map_values(|p: &PeerInfo| p@);
            proof {
                assert(self@.subrange(0, i + 1).drop_last() =~= self@.subrange(0, i as int));
                assert(self@.subrange(0, i + 1).last() == p@);
            }
            if p.status == PeerStatus::Connected {
                out.push(p);
                proof { assert(out@.map_values(|p: &PeerInfo| p@) =~= before.push(p@)); }
            }
            i = i + 1;
        }
        proof { assert(self@.subrange(0, i as int) =~= self@); }
        out
    }

    /// Copies of all peer records, in registration order.
    pub fn snapshot(&self) -> (r: Vec<PeerInfo>)
        ensures
            r@.map_values(|p: PeerInfo| p@) == self@,
    {
        let mut out: Vec<PeerInfo> = Vec::new();
        let mut i: usize = 0;
        while i < self.peers.len()
            invariant
                i <= self.peers@.len(),
                self@.len() == self.peers@.len(),
                out@.map_values(|p: PeerInfo| p@) == self@.subrange(0, i as int),
            decreases self.peers.len() - i,
        {
            let p = copy_peer(&self.peers[i]);
            proof { assert(p@ == self@[i as int]); }
            let ghost before = out@;
            out.push(p);
            proof {
                assert(out@.map_values(|p: PeerInfo| p@) =~= before.map_values(|p: PeerInfo| p@).push(self@[i as int]));
                assert(self@.subrange(0, i + 1) =~= self@.subrange(0, i as int).push(self@[i as int]));
            }
            i = i + 1;
        }
        proof { assert(self@.subrange(0, i as int) =~= self@); }
        out
    }

    /// Sort keys of the peers for a target: distance, then id.
    fn peer_keys(&self, target_digest: &Vec<u8>, Ghost(target): Ghost<Seq<char>>) -> (keys: Vec<(Vec<u8>, Vec<char>)>)
        requires
            self.wf(),
            target_digest@ == node_digest(target),
            target_digest@.len() == 32,
        ensures
            keys@.len() == self@.len(),
            forall|i: int| 0 <= i < self@.len() ==> #[trigger] keys_view(keys@)[i] == peer_key(target, self@[i].id),
            forall|i: int, j: int| 0 <= i < keys@.len() && 0 <= j < keys@.len() && i != j ==> #[trigger] keys@[i].1@ != #[trigger] keys@[j].1@,
    {
        let mut keys: Vec<(Vec<u8>, Vec<char>)> = Vec::new();
        let mut i: usize = 0;
        while i < self.peers.len()
            invariant
                i <= self.peers@.len(),
                self@.len() == self.peers@.len(),
                self.wf(),
                target_digest@ == node_digest(target),
                target_digest@.len() == 32,
                keys@.len() == i,
                forall|j: int| 0 <= j < i ==> #[trigger] keys_view(keys@)[j] == peer_key(target, self@[j].id),
                forall|j: int| 0 <= j < i ==> #[trigger] keys@[j].1@ == self@[j].id,
            decreases self.peers.len() - i,
        {
            proof { assert(self@[i as int] == self.peers@[i as int]@); }
            let d = digest_node_id(self.peers[i].id.as_str());
            let x = xor_distance_bytes(target_digest, &d);
            let c = chars_of(self.peers[i].id.as_str());
            let ghost before = keys@;
            keys.push((x, c));
            proof {
                assert(keys_view(keys@) =~= keys_view(before).push((x@, c@)));
                assert(distance(target, self@[i as int].id) =~= x@);
                assert forall|j: int| 0 <= j < i + 1 implies #[trigger] keys@[j].1@ == self@[j].id by {
                    if j < i {
                        assert(keys@[j] == before[j]);
                    }
                }
            }
            i = i + 1;
        }
        proof {
            assert forall|a: int, b: int| 0 <= a < keys@.len() && 0 <= b < keys@.len() && a != b implies #[trigger] keys@[a].1@ != #[trigger] keys@[b].1@ by {
                assert(self@[a].id != self@[b].id);
            }
        }
        keys
    }

    /// The `limit` peers closest to `target_id` (by XOR distance of digests,
    /// then by id), closest first.
    pub fn nearest_peers(&self, target_id: &str, limit: usize) -> (r: Vec<PeerDistance>)
        requires
            self.wf(),
        ensures
            nearest_ok(self@, target_id@, limit, distances_view(r@)),
    {
        if is_blank(target_id) || limit == 0 {
            let r: Vec<PeerDistance> = Vec::new();
            proof { assert(distances_view(r@).len() == 0); }
            return r;
        }
        let td = digest_node_id(target_id);
        let keys = self.peer_keys(&td, Ghost(target_id@));
        let ghost kv = keys_view(keys@);
        let perm = sort_by_key(&keys);
        let n = self.peers.len();
        let m = if limit < n { limit } else { n };
        let mut out: Vec<PeerDistance> = Vec::new();
        let mut k: usize = 0;
        while k < m
            invariant
                k <= m,
                m <= n,
                n == self@.len(),
                n == self.peers@.len(),
                kv == keys_view(keys@),
                keys@.len() == n,
                is_perm(perm@, n as int),
                forall|i: int| 0 <= i < n ==> #[trigger] kv[i] == peer_key(target_id@, self@[i].id),
                distances_view(out@).len() == k,
                forall|j: int| 0 <= j < k ==> #[trigger] distances_view(out@)[j] == (self@[perm@[j] as int], hex_lower(kv[perm@[j] as int].0)),
            decreases m - k,
        {
            let p = perm[k];
            proof { assert(self@[p as int] == self.peers@[p as int]@); }
            let entry = PeerDistance { peer: copy_peer(&self.peers[p]), xor_distance_hex: hex_encode(keys[p].0.as_slice()) };
            let ghost before = out@;
            out.push(entry);
            proof {
                assert(distances_view(out@) =~= distances_view(before).push((self@[p as int], hex_lower(kv[p as int].0))));
            }
            k = k + 1;
        }
        proof {
            let r = distances_view(out@);
            let t = target_id@;
            assert forall|j: int| 0 <= j < r.len() implies self@.contains(#[trigger] r[j].0) by {
                assert(self@[perm@[j] as int] == r[j].0);
            }
            assert forall|j: int| 0 <= j < r.len() implies (#[trigger] r[j]).1 == hex_lower(distance(t, r[j].0.id)) by {
                assert(kv[perm@[j] as int] == peer_key(t, self@[perm@[j] as int].id));
            }
            assert forall|a: int, b: int| 0 <= a < b < r.len() implies key_lt(peer_key(t, #[trigger] r[a].0.id), peer_key(t, #[trigger] r[b].0.id)) by {
                assert(key_lt(kv[perm@[a] as int], kv[perm@[b] as int]));
            }
            assert forall|i: int| 0 <= i < self@.len() && left_out(r, #[trigger] self@[i].id) implies forall|j: int| 0 <= j < r.len() ==> key_lt(peer_key(t, #[trigger] r[j].0.id), peer_key(t, self@[i].id)) by {
                assert(listed(perm@, i));
                let a = choose|a: int| 0 <= a < perm@.len() && #[trigger] perm@[a] == i;
                if a < m {
                    assert(r[a].0.id == self@[i].id);
                }
                assert forall|j: int| 0 <= j < r.len() implies key_lt(peer_key(t, #[trigger] r[j].0.id), peer_key(t, self@[i].id)) by {
                    assert(key_lt(kv[perm@[j] as int], kv[perm@[a] as int]));
                }
            }
        }
        out
    }

    /// The peers grouped into DHT buckets for `target_id`: the bucket of a
    /// peer is the number of leading zero bits of its distance, capped at
    /// `bucket_count - 1`; buckets come closest first, ids in order.
    pub fn dht_buckets(&self, target_id: &str, bucket_count: u8) -> (r: Vec<DhtBucket>)
        requires
            self.wf(),
        ensures
            buckets_ok(self@, target_id@, bucket_count, buckets_view(r@)),
    {
        let mut out: Vec<DhtBucket> = Vec::new();
        if is_blank(target_id) || bucket_count == 0 {
            proof { assert(buckets_view(out@).len() == 0); }
            return out;
        }
        let ghost t = target_id@;
        let td = digest_node_id(target_id);
        let n = self.peers.len();
        let mut bidx: Vec<u8> = Vec::new();
        let mut i: usize = 0;
        while i < n
            invariant
                n == self.peers@.len(),
                n == self@.len(),
                i <= n,
                bucket_count > 0,
                td@ == node_digest(t),
                td@.len() == 32,
                bidx@.len() == i,
                forall|j: int| 0 <= j < i ==> #[trigger] bidx@[j] == bucket_of(t, self@[j].id, bucket_count),
            decreases n - i,
        {
            proof { assert(self@[i as int] == self.peers@[i as int]@); }
            let d = digest_node_id(self.peers[i].id.as_str());
            let x = xor_distance_bytes(&td, &d);
            let z = leading_zero_bits(&x);
            let cap = (bucket_count - 1) as usize;
            let b: u8 = if z < cap { z as u8 } else { cap as u8 };
            proof { assert(x@ =~= distance(t, self@[i as int].id)); }
            bidx.push(b);
            i = i + 1;
        }
        let mut level: u16 = bucket_count as u16;
        while level > 0
            invariant
                n == self.peers@.len(),
                n == self@.len(),
                self.wf(),
                bucket_count > 0,
                level <= bucket_count,
                !is_blank_seq(t),
                bidx@.len() == n,
                forall|j: int| 0 <= j < n ==> #[trigger] bidx@[j] == bucket_of(t, self@[j].id, bucket_count),
                forall|a: int, b: int| 0 <= a < b < buckets_view(out@).len() ==> (#[trigger] buckets_view(out@)[a]).0 > (#[trigger] buckets_view(out@)[b]).0,
                forall|k: int| 0 <= k < buckets_view(out@).len() ==> (#[trigger] buckets_view(out@)[k]).0 >= level,
                forall|k: int| 0 <= k < buckets_view(out@).len() ==> (#[trigger] buckets_view(out@)[k]).1.len() > 0 && ids_sorted(buckets_view(out@)[k].1),
                forall|k: int, m: int| 0 <= k < buckets_view(out@).len() && 0 <= m < buckets_view(out@)[k].1.len() ==> from_bucket(self@, t, bucket_count, #[trigger] buckets_view(out@)[k].1[m], buckets_view(out@)[k].0),
                forall|q: int| 0 <= q < n && bucket_of(t, self@[q].id, bucket_count) >= level ==> in_buckets(buckets_view(out@), #[trigger] self@[q].id, bucket_of(t, self@[q].id, bucket_count)),
            decreases level,
        {
            level = level - 1;
            let b = level as u8;
            let mut members: Vec<usize> = Vec::new();
            let mut keys: Vec<(Vec<u8>, Vec<char>)> = Vec::new();
            let mut j: usize = 0;
            while j < n
                invariant
                    n == self.peers@.len(),
                    n == self@.len(),
                    self.wf(),
                    j <= n,
                    bidx@.len() == n,
                    members@.len() == keys@.len(),
                    forall|a: int| 0 <= a < members@.len() ==> #[trigger] members@[a] < j && bidx@[members@[a] as int] == b,
                    forall|a: int| 0 <= a < members@.len() ==> (#[trigger] keys@[a]).0@ == Seq::<u8>::empty() && keys@[a].1@ == self@[members@[a] as int].id,
                    forall|a: int, c: int| 0 <= a < c < members@.len() ==> #[trigger] members@[a] < #[trigger] members@[c],
                    forall|q: int| 0 <= q < j && bidx@[q] == b ==> exists|a: int| 0 <= a < members@.len() && #[trigger] members@[a] == q,
                decreases n - j,
            {
                if bidx[j] == b {
                    proof { assert(self@[j as int] == self.peers@[j as int]@); }
                    let ghost mb = members@;
                    members.push(j);
                    keys.push((Vec::new(), chars_of(self.peers[j].id.as_str())));
                    proof {
                        assert forall|q: int| 0 <= q < j + 1 && bidx@[q] == b implies exists|a: int| 0 <= a < members@.len() && #[trigger] members@[a] == q by {
                            if q == j {
                                assert(members@[mb.len() as int] == q);
                            } else {
                                let a = choose|a: int| 0 <= a < mb.len() && #[trigger] mb[a] == q;
                                assert(members@[a] == q);
                            }
                        }
                    }
                }
                j = j + 1;
            }
            if members.len() > 0 {
                proof {
                    assert forall|x: int, y: int| 0 <= x < keys@.len() && 0 <= y < keys@.len() && x != y implies #[trigger] keys@[x].1@ != #[trigger] keys@[y].1@ by {
                        if x < y {
                            assert(members@[x] < members@[y]);
                        } else {
                            assert(members@[y] < members@[x]);
                        }
                        assert(self@[members@[x] as int].id != self@[members@[y] as int].id);
                    }
                }
                let perm = sort_by_key(&keys);
                let ghost kv = keys_view(keys@);
                let mut ids: Vec<String> = Vec::new();
                let mut k: usize = 0;
                while k < members.len()
                    invariant
                        k <= members@.len(),
                        members@.len() == keys@.len(),
                        kv == keys_view(keys@),
                        is_perm(perm@, members@.len() as int),
                        n == self.peers@.len(),
                        n == self@.len(),
                        forall|a: int| 0 <= a < members@.len() ==> #[trigger] members@[a] < n,
                        forall|a: int| 0 <= a < members@.len() ==> (#[trigger] keys@[a]).0@ == Seq::<u8>::empty() && keys@[a].1@ == self@[members@[a] as int].id,
                        strings_view(ids@).len() == k,
                        forall|c: int| 0 <= c < k ==> #[trigger] strings_view(ids@)[c] == kv[perm@[c] as int].1,
                    decreases members.len() - k,
                {
                    let q = members[perm[k]];
                    proof { assert(self@[q as int] == self.peers@[q as int]@); }
                    let ghost before = ids@;
                    ids.push(self.peers[q].id.clone());
                    proof { assert(strings_view(ids@) =~= strings_view(before).push(kv[perm@[k as int] as int].1)); }
                    k = k + 1;
                }
                let ghost iv = strings_view(ids@);
                proof {
                    assert forall|x: int, y: int| 0 <= x < y < iv.len() implies lex_lt(chars_key(#[trigger] iv[x]), chars_key(#[trigger] iv[y])) by {
                        assert(key_lt(kv[perm@[x] as int], kv[perm@[y] as int]));
                        lemma_lex_irreflexive(bytes_key(Seq::<u8>::empty()));
                        assert(kv[perm@[x] as int].0 == Seq::<u8>::empty());
                        assert(kv[perm@[y] as int].0 == Seq::<u8>::empty());
                    }
                }
                let ghost old_out = buckets_view(out@);
                out.push(DhtBucket { bucket_index: b, peer_ids: ids });
                proof {
                    let nv = buckets_view(out@);
                    assert(nv =~= old_out.push((b, iv)));
                    assert forall|x: int, m: int| 0 <= x < nv.len() && 0 <= m < nv[x].1.len() implies from_bucket(self@, t, bucket_count, #[trigger] nv[x].1[m], nv[x].0) by {
                        if x == old_out.len() {
                            let pm = perm@[m] as int;
                            assert(0 <= pm < members@.len());
                            let q = members@[pm] as int;
                            assert(q < n);
                            assert(nv[x].1 == iv);
                            assert(iv[m] == kv[pm].1);
                            assert(kv[pm] == (keys@[pm].0@, keys@[pm].1@));
                            assert(keys@[pm].1@ == self@[q].id);
                            assert(self@[q].id == nv[x].1[m]);
                            assert(bidx@[q] == b);
                        } else {
                            assert(nv[x] == old_out[x]);
                            assert(old_out[x].1[m] == nv[x].1[m]);
                        }
                    }
                    assert forall|q: int| 0 <= q < n && bucket_of(t, self@[q].id, bucket_count) >= level implies in_buckets(nv, #[trigger] self@[q].id, bucket_of(t, self@[q].id, bucket_count)) by {
                        if bucket_of(t, self@[q].id, bucket_count) == b {
                            assert(bidx@[q] == b);
                            let a = choose|a: int| 0 <= a < members@.len() && #[trigger] members@[a] == q;
                            assert(listed(perm@, a));
                            let c = choose|c: int| 0 <= c < perm@.len() && #[trigger] perm@[c] == a;
                            assert(nv[old_out.len() as int].1[c] == self@[q].id);
                        } else {
                            assert(in_buckets(old_out, self@[q].id, bucket_of(t, self@[q].id, bucket_count)));
                            let (x, m) = choose|x: int, m: int| 0 <= x < old_out.len() && 0 <= m < old_out[x].1.len() && #[trigger] old_out[x].1[m] == self@[q].id && old_out[x].0 == bucket_of(t, self@[q].id, bucket_count);
                            assert(nv[x] == old_out[x]);
                            assert(nv[x].1[m] == self@[q].id);
                        }
                    }
                }
            } else {
                proof {
                    assert forall|q: int| 0 <= q < n && bucket_of(t, self@[q].id, bucket_count) >= level implies in_buckets(buckets_view(out@), #[trigger] self@[q].id, bucket_of(t, self@[q].id, bucket_count)) by {
                        if bucket_of(t, self@[q].id, bucket_count) == b {
                            assert(bidx@[q] == b);
                        }
                    }
                }
            }
        }
        proof {
            let r = buckets_view(out@);
            assert forall|i: int| 0 <= i < self@.len() implies in_buckets(r, #[trigger] self@[i].id, bucket_of(t, self@[i].id, bucket_count)) by {
                assert(bucket_of(t, self@[i].id, bucket_count) >= level);
            }
        }
        out
    }

    /// Marks a peer disconnected.
    pub fn mark_disconnected(&mut self, id: &str)
        requires
            old(self).wf(),
        ensures
            final(self).wf(),
            match peer_index(old(self)@, id@) {
                Some(i) => final(self)@ == old(self)@.update(i, PeerInfoV { status: PeerStatus::Disconnected, ..old(self)@[i] }),
                None => final(self)@ == old(self)@,
            },
    {
        let ghost before = self@;
        match self.find(id) {
            Some(i) => {
                let mut p = copy_peer(&self.peers[i]);
                proof { assert(p@ == before[i as int]); }
                p.status = PeerStatus::Disconnected;
                p.last_seen_secs = now_secs();
                self.peers.set(i, p);
                proof {
                    assert(self@ =~= before.update(i as int, PeerInfoV { status: PeerStatus::Disconnected, ..before[i as int] }));
                    assert forall|a: int, b: int| 0 <= a < self@.len() && 0 <= b < self@.len() && a != b implies #[trigger] self@[a].id != #[trigger] self@[b].id by {
                        assert(self@[a].id == before[a].id && self@[b].id == before[b].id);
                    }
                }
            },
            None => {},
        }
    }
}

} // verus!
