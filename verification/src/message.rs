//! Peer-to-peer messages: handshake, chain status, transactions and blocks,
//! with the structural checks a message must pass before it is handled.

use vstd::prelude::*;
use crate::text::{is_blank, is_blank_seq};
use crate::binary::copy_range;

verus! {

/// Handshake exchanged when two nodes connect.
#[derive(Debug, Clone, PartialEq, Eq)]
pub struct Handshake {
    /// Node id.
    pub node_id: String,
    /// Protocol version.
    pub protocol_version: String,
    /// Listen address.
    pub listen_addr: String,
    /// Local best height.
    pub best_height: u64,
    /// Local best hash.
    pub best_hash: String,
}

/// Summary of a chain, to decide whether to sync.
#[derive(Debug, Clone, PartialEq, Eq)]
pub struct ChainStatus {
    /// Chain id.
    pub chain_id: String,
    /// Best height.
    pub best_height: u64,
    /// Best hash.
    pub best_hash: String,
    /// Current difficulty.
    pub difficulty: u32,
    /// Genesis hash.
    pub genesis_hash: String,
}

/// A network message.
#[derive(Debug, Clone, PartialEq, Eq)]
pub enum NetworkMessage {
    /// Heartbeat request.
    Ping { nonce: u64, timestamp: i64 },
    /// Heartbeat answer.
    Pong { nonce: u64, timestamp: i64 },
    /// Handshake.
    Handshake(Handshake),
    /// A new transaction (serialized).
    NewTransaction { transaction: Vec<u8> },
    /// A new block (serialized).
    NewBlock { block: Vec<u8> },
    /// Request for blocks from a height.
    GetBlocks { from_height: u64, limit: u32 },
    /// Blocks (serialized).
    Blocks { blocks: Vec<Vec<u8>> },
    /// Request for the mempool.
    GetMempool,
    /// Mempool transactions (serialized).
    Mempool { transactions: Vec<Vec<u8>> },
    /// Request for the chain status.
    GetChainStatus,
    /// Chain status.
    ChainStatus(ChainStatus),
}

/// Why a message fails the structural check.
#[derive(Debug, Clone, PartialEq, Eq)]
pub enum MessageValidationError {
    /// A required field is blank.
    MissingField(&'static str),
    /// A field is out of range.
    InvalidField(&'static str),
    /// A binary payload is empty.
    EmptyPayload(&'static str),
}

/// A handshake, viewed.
pub struct HandshakeV {
    pub node_id: Seq<char>,
    pub protocol_version: Seq<char>,
    pub listen_addr: Seq<char>,
    pub best_height: u64,
    pub best_hash: Seq<char>,
}

/// A chain status, viewed.
pub struct ChainStatusV {
    pub chain_id: Seq<char>,
    pub best_height: u64,
    pub best_hash: Seq<char>,
    pub difficulty: u32,
    pub genesis_hash: Seq<char>,
}

/// A message, viewed.
pub enum NetworkMessageV {
    Ping { nonce: u64, timestamp: i64 },
    Pong { nonce: u64, timestamp: i64 },
    Handshake(HandshakeV),
    NewTransaction { transaction: Seq<u8> },
    NewBlock { block: Seq<u8> },
    GetBlocks { from_height: u64, limit: u32 },
    Blocks { blocks: Seq<Seq<u8>> },
    GetMempool,
    Mempool { transactions: Seq<Seq<u8>> },
    GetChainStatus,
    ChainStatus(ChainStatusV),
}

impl View for Handshake {
    type V = HandshakeV;

    open spec fn view(&self) -> HandshakeV {
        HandshakeV {
            node_id: self.node_id@,
            protocol_version: self.protocol_version@,
            listen_addr: self.listen_addr@,
            best_height: self.best_height,
            best_hash: self.best_hash@,
        }
    }
}

impl View for ChainStatus {
    type V = ChainStatusV;

    open spec fn view(&self) -> ChainStatusV {
        ChainStatusV {
            chain_id: self.chain_id@,
            best_height: self.best_height,
            best_hash: self.best_hash@,
            difficulty: self.difficulty,
            genesis_hash: self.genesis_hash@,
        }
    }
}

/// Byte strings, viewed.
pub open spec fn lists_view(l: Seq<Vec<u8>>) -> Seq<Seq<u8>> {
    l.map_values(|v: Vec<u8>| v@)
}

impl View for NetworkMessage {
    type V = NetworkMessageV;

    open spec fn view(&self) -> NetworkMessageV {
        match self {
            NetworkMessage::Ping { nonce, timestamp } => NetworkMessageV::Ping { nonce: *nonce, timestamp: *timestamp },
            NetworkMessage::Pong { nonce, timestamp } => NetworkMessageV::Pong { nonce: *nonce, timestamp: *timestamp },
            NetworkMessage::Handshake(h) => NetworkMessageV::Handshake(h@),
            NetworkMessage::NewTransaction { transaction } => NetworkMessageV::NewTransaction { transaction: transaction@ },
            NetworkMessage::NewBlock { block } => NetworkMessageV::NewBlock { block: block@ },
            NetworkMessage::GetBlocks { from_height, limit } => NetworkMessageV::GetBlocks { from_height: *from_height, limit: *limit },
            NetworkMessage::Blocks { blocks } => NetworkMessageV::Blocks { blocks: lists_view(blocks@) },
            NetworkMessage::GetMempool => NetworkMessageV::GetMempool,
            NetworkMessage::Mempool { transactions } => NetworkMessageV::Mempool { transactions: lists_view(transactions@) },
            NetworkMessage::GetChainStatus => NetworkMessageV::GetChainStatus,
            NetworkMessage::ChainStatus(c) => NetworkMessageV::ChainStatus(c@),
        }
    }
}

/// The name of a message's kind.
pub open spec fn message_type_spec(m: NetworkMessageV) -> &'static str {
    match m {
        NetworkMessageV::Ping { .. } => "ping",
        NetworkMessageV::Pong { .. } => "pong",
        NetworkMessageV::Handshake(_) => "handshake",
        NetworkMessageV::NewTransaction { .. } => "new_transaction",
        NetworkMessageV::NewBlock { .. } => "new_block",
        NetworkMessageV::GetBlocks { .. } => "get_blocks",
        NetworkMessageV::Blocks { .. } => "blocks",
        NetworkMessageV::GetMempool => "get_mempool",
        NetworkMessageV::Mempool { .. } => "mempool",
        NetworkMessageV::GetChainStatus => "get_chain_status",
        NetworkMessageV::ChainStatus(_) => "chain_status",
    }
}

/// The structural check of a handshake.
pub open spec fn handshake_check(h: HandshakeV) -> Result<(), MessageValidationError> {
    if is_blank_seq(h.node_id) {
        Err(MessageValidationError::MissingField("node_id"))
    } else if is_blank_seq(h.protocol_version) {
        Err(MessageValidationError::MissingField("protocol_version"))
    } else if is_blank_seq(h.listen_addr) {
        Err(MessageValidationError::MissingField("listen_addr"))
    } else if is_blank_seq(h.best_hash) {
        Err(MessageValidationError::MissingField("best_hash"))
    } else {
        Ok(())
    }
}

/// The structural check of a chain status.
pub open spec fn chain_status_check(c: ChainStatusV) -> Result<(), MessageValidationError> {
    if is_blank_seq(c.chain_id) {
        Err(MessageValidationError::MissingField("chain_id"))
    } else if is_blank_seq(c.best_hash) {
        Err(MessageValidationError::MissingField("best_hash"))
    } else if is_blank_seq(c.genesis_hash) {
        Err(MessageValidationError::MissingField("genesis_hash"))
    } else {
        Ok(())
    }
}

/// Whether one of the byte strings is empty.
pub open spec fn any_empty(l: Seq<Seq<u8>>) -> bool {
    exists|i: int| 0 <= i < l.len() && (#[trigger] l[i]).len() == 0
}

/// The structural check of a message.
pub open spec fn message_check(m: NetworkMessageV) -> Result<(), MessageValidationError> {
    match m {
        NetworkMessageV::Handshake(h) => handshake_check(h),
        NetworkMessageV::NewTransaction { transaction } => if transaction.len() == 0 {
            Err(MessageValidationError::EmptyPayload("transaction"))
        } else {
            Ok(())
        },
        NetworkMessageV::NewBlock { block } => if block.len() == 0 {
            Err(MessageValidationError::EmptyPayload("block"))
        } else {
            Ok(())
        },
        NetworkMessageV::GetBlocks { limit, .. } => if limit == 0 || limit > 200 {
            Err(MessageValidationError::InvalidField("limit"))
        } else {
            Ok(())
        },
        NetworkMessageV::Blocks { blocks } => if any_empty(blocks) {
            Err(MessageValidationError::EmptyPayload("blocks"))
        } else {
            Ok(())
        },
        NetworkMessageV::Mempool { transactions } => if any_empty(transactions) {
            Err(MessageValidationError::EmptyPayload("transactions"))
        } else {
            Ok(())
        },
        NetworkMessageV::ChainStatus(c) => chain_status_check(c),
        _ => Ok(()),
    }
}

/// The text of a validation error.
pub open spec fn validation_text(e: MessageValidationError) -> Seq<char> {
    match e {
        MessageValidationError::MissingField(f) => "字段缺失: "@ + f@,
        MessageValidationError::InvalidField(f) => "字段不合法: "@ + f@,
        MessageValidationError::EmptyPayload(f) => "消息载荷不能为空: "@ + f@,
    }
}

/// Whether one of the byte strings is empty.
fn has_empty(l: &Vec<Vec<u8>>) -> (r: bool)
    ensures
        r == any_empty(lists_view(l@)),
{
    let mut i: usize = 0;
    while i < l.len()
        invariant
            i <= l.len(),
            forall|j: int| 0 <= j < i ==> (#[trigger] lists_view(l@)[j]).len() != 0,
        decreases l.len() - i,
    {
        if l[i].len() == 0 {
            proof { assert(lists_view(l@)[i as int].len() == 0); }
            return true;
        }
        i = i + 1;
    }
    false
}

/// A copy of a byte string.
pub fn copy_bytes(v: &Vec<u8>) -> (r: Vec<u8>)
    ensures
        r@ == v@,
{
    let r = copy_range(v.as_slice(), 0, v.len());
    proof { assert(v@.subrange(0, v@.len() as int) =~= v@); }
    r
}

/// A copy of a list of byte strings.
pub fn copy_lists(l: &Vec<Vec<u8>>) -> (r: Vec<Vec<u8>>)
    ensures
        lists_view(r@) == lists_view(l@),
{
    let mut out: Vec<Vec<u8>> = Vec::new();
    let mut i: usize = 0;
    while i < l.len()
        invariant
            i <= l@.len(),
            lists_view(out@) == lists_view(l@).subrange(0, i as int),
        decreases l.len() - i,
    {
        let ghost before = out@;
        out.push(copy_bytes(&l[i]));
        proof {
            assert(lists_view(out@) =~= lists_view(before).push(l@[i as int]@));
            assert(lists_view(l@).subrange(0, i + 1) =~= lists_view(l@).subrange(0, i as int).push(l@[i as int]@));
        }
        i = i + 1;
    }
    proof { assert(lists_view(l@).subrange(0, l@.len() as int) =~= lists_view(l@)); }
    out
}

/// A copy of a chain status.
pub fn copy_status(c: &ChainStatus) -> (r: ChainStatus)
    ensures
        r@ == c@,
{
    ChainStatus {
        chain_id: c.chain_id.clone(),
        best_height: c.best_height,
        best_hash: c.best_hash.clone(),
        difficulty: c.difficulty,
        genesis_hash: c.genesis_hash.clone(),
    }
}

/// A copy of a message.
pub fn copy_message(m: &NetworkMessage) -> (r: NetworkMessage)
    ensures
        r@ == m@,
{
    match m {
        NetworkMessage::Ping { nonce, timestamp } => NetworkMessage::Ping { nonce: *nonce, timestamp: *timestamp },
        NetworkMessage::Pong { nonce, timestamp } => NetworkMessage::Pong { nonce: *nonce, timestamp: *timestamp },
        NetworkMessage::Handshake(h) => NetworkMessage::Handshake(Handshake {
            node_id: h.node_id.clone(),
            protocol_version: h.protocol_version.clone(),
            listen_addr: h.listen_addr.clone(),
            best_height: h.best_height,
            best_hash: h.best_hash.clone(),
        }),
        NetworkMessage::NewTransaction { transaction } => NetworkMessage::NewTransaction { transaction: copy_bytes(transaction) },
        NetworkMessage::NewBlock { block } => NetworkMessage::NewBlock { block: copy_bytes(block) },
        NetworkMessage::GetBlocks { from_height, limit } => NetworkMessage::GetBlocks { from_height: *from_height, limit: *limit },
        NetworkMessage::Blocks { blocks } => NetworkMessage::Blocks { blocks: copy_lists(blocks) },
        NetworkMessage::GetMempool => NetworkMessage::GetMempool,
        NetworkMessage::Mempool { transactions } => NetworkMessage::Mempool { transactions: copy_lists(transactions) },
        NetworkMessage::GetChainStatus => NetworkMessage::GetChainStatus,
        NetworkMessage::ChainStatus(c) => NetworkMessage::ChainStatus(copy_status(c)),
    }
}

impl MessageValidationError {
    /// The error as text.
    pub fn message(&self) -> (r: String)
        ensures
            r@ == validation_text(*self),
    {
        let (prefix, field) = match self {
            MessageValidationError::MissingField(f) => ("字段缺失: ", *f),
            MessageValidationError::InvalidField(f) => ("字段不合法: ", *f),
            MessageValidationError::EmptyPayload(f) => ("消息载荷不能为空: ", *f),
        };
        let mut s = String::from_str(prefix);
        s.append(field);
        s
    }
}

impl NetworkMessage {
    /// The name of the message's kind.
    pub fn message_type(&self) -> (r: &'static str)
        ensures
            r == message_type_spec(self@),
    {
        match self {
            NetworkMessage::Ping { .. } => "ping",
            NetworkMessage::Pong { .. } => "pong",
            NetworkMessage::Handshake(_) => "handshake",
            NetworkMessage::NewTransaction { .. } => "new_transaction",
            NetworkMessage::NewBlock { .. } => "new_block",
            NetworkMessage::GetBlocks { .. } => "get_blocks",
            NetworkMessage::Blocks { .. } => "blocks",
            NetworkMessage::GetMempool => "get_mempool",
            NetworkMessage::Mempool { .. } => "mempool",
            NetworkMessage::GetChainStatus => "get_chain_status",
            NetworkMessage::ChainStatus(_) => "chain_status",
        }
    }

    /// Checks the message's structure.
    pub fn validate_basic(&self) -> (r: Result<(), MessageValidationError>)
        ensures
            r == message_check(self@),
    {
        match self {
            NetworkMessage::Handshake(h) => h.validate_basic(),
            NetworkMessage::NewTransaction { transaction } => {
                if transaction.len() == 0 {
                    return Err(MessageValidationError::EmptyPayload("transaction"));
                }
                Ok(())
            },
            NetworkMessage::NewBlock { block } => {
                if block.len() == 0 {
                    return Err(MessageValidationError::EmptyPayload("block"));
                }
                Ok(())
            },
            NetworkMessage::GetBlocks { limit, .. } => {
                if *limit == 0 || *limit > 200 {
                    return Err(MessageValidationError::InvalidField("limit"));
                }
                Ok(())
            },
            NetworkMessage::Blocks { blocks } => {
                if has_empty(blocks) {
                    return Err(MessageValidationError::EmptyPayload("blocks"));
                }
                Ok(())
            },
            NetworkMessage::Mempool { transactions } => {
                if has_empty(transactions) {
                    return Err(MessageValidationError::EmptyPayload("transactions"));
                }
                Ok(())
            },
            NetworkMessage::ChainStatus(c) => c.validate_basic(),
            _ => Ok(()),
        }
    }
}

impl Handshake {
    /// Checks that the identifying fields are not blank.
    pub fn validate_basic(&self) -> (r: Result<(), MessageValidationError>)
        ensures
            r == handshake_check(self@),
    {
        if is_blank(self.node_id.as_str()) {
            return Err(MessageValidationError::MissingField("node_id"));
        }
        if is_blank(self.protocol_version.as_str()) {
            return Err(MessageValidationError::MissingField("protocol_version"));
        }
        if is_blank(self.listen_addr.as_str()) {
            return Err(MessageValidationError::MissingField("listen_addr"));
        }
        if is_blank(self.best_hash.as_str()) {
            return Err(MessageValidationError::MissingField("best_hash"));
        }
        Ok(())
    }
}

impl ChainStatus {
    /// Checks that the identifying fields are not blank.
    pub fn validate_basic(&self) -> (r: Result<(), MessageValidationError>)
        ensures
            r == chain_status_check(self@),
    {
        if is_blank(self.chain_id.as_str()) {
            return Err(MessageValidationError::MissingField("chain_id"));
        }
        if is_blank(self.best_hash.as_str()) {
            return Err(MessageValidationError::MissingField("best_hash"));
        }
        if is_blank(self.genesis_hash.as_str()) {
            return Err(MessageValidationError::MissingField("genesis_hash"));
        }
        Ok(())
    }
}

} // verus!
