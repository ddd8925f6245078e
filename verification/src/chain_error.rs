//! Errors of the chain: transaction and block checks, balances, payloads.

use vstd::prelude::*;
use crate::text::{dec_u64, dec_nat};

verus! {

/// Errors of the chain.
#[derive(Debug, Clone, PartialEq, Eq)]
pub enum CoreError {
    /// Transfers must move a positive amount.
    ZeroAmount,
    /// An ordinary transaction needs a sender.
    MissingSender,
    /// System transactions cannot be submitted from outside.
    ReservedSystemAddress,
    /// A transaction needs a recipient.
    MissingRecipient,
    /// The id does not match the transaction's content.
    InvalidTransactionId(String),
    /// The block hash does not match the block.
    InvalidBlockHash { index: u64 },
    /// The block does not follow the previous block's hash.
    InvalidPreviousHash { index: u64 },
    /// The Merkle root does not match the transactions.
    InvalidMerkleRoot { index: u64 },
    /// The hash does not meet the block's difficulty.
    InvalidProofOfWork { index: u64 },
    /// The block's difficulty is not the one the chain expects.
    InvalidBlockDifficulty { index: u64, expected: u32, actual: u32 },
    /// The block's height does not follow the previous one.
    InvalidBlockIndex { expected: u64, actual: u64 },
    /// The sender cannot pay.
    InsufficientBalance { address: String, needed: u64, available: u64 },
    /// The chain has no block.
    EmptyChain,
    /// The first block is not the genesis block.
    InvalidGenesisBlock,
    /// A contract payload does not compile.
    ContractCompileFailed { tx_id: String, reason: String },
    /// A contract payload fails when run.
    ContractExecutionFailed { tx_id: String, reason: String },
    /// A contract payload is not UTF-8 text.
    ContractPayloadEncodingInvalid { tx_id: String, reason: String },
    /// A lending payload is missing or malformed.
    DefiPayloadInvalid { tx_id: String, reason: String },
    /// A lending payload names a position that is not the sender's.
    DefiOwnerMismatch { owner: String, sender: String },
    /// A lending action fails on the pool.
    DefiExecutionFailed { tx_id: String, reason: String },
}

/// A chain error with its strings viewed as characters.
pub enum CoreErrorV {
    ZeroAmount,
    MissingSender,
    ReservedSystemAddress,
    MissingRecipient,
    InvalidTransactionId(Seq<char>),
    InvalidBlockHash { index: u64 },
    InvalidPreviousHash { index: u64 },
    InvalidMerkleRoot { index: u64 },
    InvalidProofOfWork { index: u64 },
    InvalidBlockDifficulty { index: u64, expected: u32, actual: u32 },
    InvalidBlockIndex { expected: u64, actual: u64 },
    InsufficientBalance { address: Seq<char>, needed: u64, available: u64 },
    EmptyChain,
    InvalidGenesisBlock,
    ContractCompileFailed { tx_id: Seq<char>, reason: Seq<char> },
    ContractExecutionFailed { tx_id: Seq<char>, reason: Seq<char> },
    ContractPayloadEncodingInvalid { tx_id: Seq<char>, reason: Seq<char> },
    DefiPayloadInvalid { tx_id: Seq<char>, reason: Seq<char> },
    DefiOwnerMismatch { owner: Seq<char>, sender: Seq<char> },
    DefiExecutionFailed { tx_id: Seq<char>, reason: Seq<char> },
}

impl View for CoreError {
    type V = CoreErrorV;

    open spec fn view(&self) -> CoreErrorV {
        match self {
            CoreError::ZeroAmount => CoreErrorV::ZeroAmount,
            CoreError::MissingSender => CoreErrorV::MissingSender,
            CoreError::ReservedSystemAddress => CoreErrorV::ReservedSystemAddress,
            CoreError::MissingRecipient => CoreErrorV::MissingRecipient,
            CoreError::InvalidTransactionId(s) => CoreErrorV::InvalidTransactionId(s@),
            CoreError::InvalidBlockHash { index } => CoreErrorV::InvalidBlockHash { index: *index },
            CoreError::InvalidPreviousHash { index } => CoreErrorV::InvalidPreviousHash { index: *index },
            CoreError::InvalidMerkleRoot { index } => CoreErrorV::InvalidMerkleRoot { index: *index },
            CoreError::InvalidProofOfWork { index } => CoreErrorV::InvalidProofOfWork { index: *index },
            CoreError::InvalidBlockDifficulty { index, expected, actual } => CoreErrorV::InvalidBlockDifficulty { index: *index, expected: *expected, actual: *actual },
            CoreError::InvalidBlockIndex { expected, actual } => CoreErrorV::InvalidBlockIndex { expected: *expected, actual: *actual },
            CoreError::InsufficientBalance { address, needed, available } => CoreErrorV::InsufficientBalance { address: address@, needed: *needed, available: *available },
            CoreError::EmptyChain => CoreErrorV::EmptyChain,
            CoreError::InvalidGenesisBlock => CoreErrorV::InvalidGenesisBlock,
            CoreError::ContractCompileFailed { tx_id, reason } => CoreErrorV::ContractCompileFailed { tx_id: tx_id@, reason: reason@ },
            CoreError::ContractExecutionFailed { tx_id, reason } => CoreErrorV::ContractExecutionFailed { tx_id: tx_id@, reason: reason@ },
            CoreError::ContractPayloadEncodingInvalid { tx_id, reason } => CoreErrorV::ContractPayloadEncodingInvalid { tx_id: tx_id@, reason: reason@ },
            CoreError::DefiPayloadInvalid { tx_id, reason } => CoreErrorV::DefiPayloadInvalid { tx_id: tx_id@, reason: reason@ },
            CoreError::DefiOwnerMismatch { owner, sender } => CoreErrorV::DefiOwnerMismatch { owner: owner@, sender: sender@ },
            CoreError::DefiExecutionFailed { tx_id, reason } => CoreErrorV::DefiExecutionFailed { tx_id: tx_id@, reason: reason@ },
        }
    }
}


/// `key=value` pairs after a label.
pub open spec fn id_reason(label: Seq<char>, tx_id: Seq<char>, reason: Seq<char>) -> Seq<char> {
    label + ": tx_id="@ + tx_id + ", reason="@ + reason
}

/// The text of a chain error.
pub open spec fn core_error_text(e: CoreErrorV) -> Seq<char> {
    match e {
        CoreErrorV::ZeroAmount => "交易金额必须大于 0"@,
        CoreErrorV::MissingSender => "普通交易缺少发送方地址"@,
        CoreErrorV::ReservedSystemAddress => "不允许通过外部接口提交系统交易"@,
        CoreErrorV::MissingRecipient => "交易缺少接收方地址"@,
        CoreErrorV::InvalidTransactionId(s) => "交易 ID 校验失败: "@ + s,
        CoreErrorV::InvalidBlockHash { index } => "区块哈希校验失败: index="@ + dec_nat(index as nat),
        CoreErrorV::InvalidPreviousHash { index } => "前一区块哈希不匹配: index="@ + dec_nat(index as nat),
        CoreErrorV::InvalidMerkleRoot { index } => "Merkle Root 校验失败: index="@ + dec_nat(index as nat),
        CoreErrorV::InvalidProofOfWork { index } => "工作量证明校验失败: index="@ + dec_nat(index as nat),
        CoreErrorV::InvalidBlockDifficulty { index, expected, actual } => "区块难度不匹配: index="@ + dec_nat(index as nat)
            + ", expected="@ + dec_nat(expected as nat) + ", actual="@ + dec_nat(actual as nat),
        CoreErrorV::InvalidBlockIndex { expected, actual } => "区块索引不连续: expected="@ + dec_nat(expected as nat)
            + ", actual="@ + dec_nat(actual as nat),
        CoreErrorV::InsufficientBalance { address, needed, available } => "账户余额不足: address="@ + address
            + ", needed="@ + dec_nat(needed as nat) + ", available="@ + dec_nat(available as nat),
        CoreErrorV::EmptyChain => "当前区块链为空"@,
        CoreErrorV::InvalidGenesisBlock => "创世区块内容不合法"@,
        CoreErrorV::ContractCompileFailed { tx_id, reason } => id_reason("合约编译失败"@, tx_id, reason),
        CoreErrorV::ContractExecutionFailed { tx_id, reason } => id_reason("合约执行失败"@, tx_id, reason),
        CoreErrorV::ContractPayloadEncodingInvalid { tx_id, reason } => id_reason("合约载荷不是 UTF-8 文本"@, tx_id, reason),
        CoreErrorV::DefiPayloadInvalid { tx_id, reason } => id_reason("DeFi 载荷不合法"@, tx_id, reason),
        CoreErrorV::DefiOwnerMismatch { owner, sender } => "DeFi 仓位归属与发送方不一致: owner="@ + owner + ", sender="@ + sender,
        CoreErrorV::DefiExecutionFailed { tx_id, reason } => id_reason("DeFi 动作执行失败"@, tx_id, reason),
    }
}

/// Appends the decimal text of `n`.
fn push_dec(t: &mut String, n: u64)
    ensures
        final(t)@ == old(t)@ + dec_nat(n as nat),
{
    let d = dec_u64(n);
    t.append(d.as_str());
}

/// `label: tx_id=.., reason=..`.
fn with_id_reason(label: &str, tx_id: &String, reason: &String) -> (r: String)
    ensures
        r@ == id_reason(label@, tx_id@, reason@),
{
    let mut t = String::from_str(label);
    t.append(": tx_id=");
    t.append(tx_id.as_str());
    t.append(", reason=");
    t.append(reason.as_str());
    t
}

impl CoreError {
    /// The error as text.
    pub fn message(&self) -> (r: String)
        ensures
            r@ == core_error_text(self@),
    {
        match self {
            CoreError::ZeroAmount => String::from_str("交易金额必须大于 0"),
            CoreError::MissingSender => String::from_str("普通交易缺少发送方地址"),
            CoreError::ReservedSystemAddress => String::from_str("不允许通过外部接口提交系统交易"),
            CoreError::MissingRecipient => String::from_str("交易缺少接收方地址"),
            CoreError::InvalidTransactionId(s) => {
                let mut t = String::from_str("交易 ID 校验失败: ");
                t.append(s.as_str());
                t
            },
            CoreError::InvalidBlockHash { index } => {
                let mut t = String::from_str("区块哈希校验失败: index=");
                push_dec(&mut t, *index);
                t
            },
            CoreError::InvalidPreviousHash { index } => {
                let mut t = String::from_str("前一区块哈希不匹配: index=");
                push_dec(&mut t, *index);
                t
            },
            CoreError::InvalidMerkleRoot { index } => {
                let mut t = String::from_str("Merkle Root 校验失败: index=");
                push_dec(&mut t, *index);
                t
            },
            CoreError::InvalidProofOfWork { index } => {
                let mut t = String::from_str("工作量证明校验失败: index=");
                push_dec(&mut t, *index);
                t
            },
            CoreError::InvalidBlockDifficulty { index, expected, actual } => {
                let mut t = String::from_str("区块难度不匹配: index=");
                push_dec(&mut t, *index);
                t.append(", expected=");
                push_dec(&mut t, *expected as u64);
                t.append(", actual=");
                push_dec(&mut t, *actual as u64);
                t
            },
            CoreError::InvalidBlockIndex { expected, actual } => {
                let mut t = String::from_str("区块索引不连续: expected=");
                push_dec(&mut t, *expected);
                t.append(", actual=");
                push_dec(&mut t, *actual);
                t
            },
            CoreError::InsufficientBalance { address, needed, available } => {
                let mut t = String::from_str("账户余额不足: address=");
                t.append(address.as_str());
                t.append(", needed=");
                push_dec(&mut t, *needed);
                t.append(", available=");
                push_dec(&mut t, *available);
                t
            },
            CoreError::EmptyChain => String::from_str("当前区块链为空"),
            CoreError::InvalidGenesisBlock => String::from_str("创世区块内容不合法"),
            CoreError::ContractCompileFailed { tx_id, reason } => with_id_reason("合约编译失败", tx_id, reason),
            CoreError::ContractExecutionFailed { tx_id, reason } => with_id_reason("合约执行失败", tx_id, reason),
            CoreError::ContractPayloadEncodingInvalid { tx_id, reason } => with_id_reason("合约载荷不是 UTF-8 文本", tx_id, reason),
            CoreError::DefiPayloadInvalid { tx_id, reason } => with_id_reason("DeFi 载荷不合法", tx_id, reason),
            CoreError::DefiOwnerMismatch { owner, sender } => {
                let mut t = String::from_str("DeFi 仓位归属与发送方不一致: owner=");
                t.append(owner.as_str());
                t.append(", sender=");
                t.append(sender.as_str());
                t
            },
            CoreError::DefiExecutionFailed { tx_id, reason } => with_id_reason("DeFi 动作执行失败", tx_id, reason),
        }
    }
}

} // verus!
