//! Errors of the peer-to-peer layer.

use vstd::prelude::*;
use crate::text::{dec_u64, dec_nat};

verus! {

/// Errors of the peer-to-peer layer.
#[derive(Debug, Clone, PartialEq, Eq)]
pub enum P2pError {
    /// A message could not be written.
    Serialize(String),
    /// Bytes do not form a message.
    Deserialize(String),
    /// A message failed its structural check.
    InvalidMessage(String),
    /// A sequence number below the expected one.
    StaleSequence { seq: u64, expected: u64 },
    /// An argument is out of range.
    InvalidArgument(String),
}

/// A peer-to-peer error with its text viewed as characters.
pub enum P2pErrorV {
    Serialize(Seq<char>),
    Deserialize(Seq<char>),
    InvalidMessage(Seq<char>),
    StaleSequence { seq: u64, expected: u64 },
    InvalidArgument(Seq<char>),
}

impl View for P2pError {
    type V = P2pErrorV;

    open spec fn view(&self) -> P2pErrorV {
        match self {
            P2pError::Serialize(s) => P2pErrorV::Serialize(s@),
            P2pError::Deserialize(s) => P2pErrorV::Deserialize(s@),
            P2pError::InvalidMessage(s) => P2pErrorV::InvalidMessage(s@),
            P2pError::StaleSequence { seq, expected } => P2pErrorV::StaleSequence { seq: *seq, expected: *expected },
            P2pError::InvalidArgument(s) => P2pErrorV::InvalidArgument(s@),
        }
    }
}


/// The text of a peer-to-peer error.
pub open spec fn p2p_error_text(e: P2pErrorV) -> Seq<char> {
    match e {
        P2pErrorV::Serialize(s) => "消息序列化失败: "@ + s,
        P2pErrorV::Deserialize(s) => "消息反序列化失败: "@ + s,
        P2pErrorV::InvalidMessage(s) => "消息结构校验失败: "@ + s,
        P2pErrorV::StaleSequence { seq, expected } => "消息序号过旧: seq="@ + dec_nat(seq as nat) + ", expected="@ + dec_nat(expected as nat),
        P2pErrorV::InvalidArgument(s) => "参数不合法: "@ + s,
    }
}

impl P2pError {
    /// The error as text.
    pub fn message(&self) -> (r: String)
        ensures
            r@ == p2p_error_text(self@),
    {
        match self {
            P2pError::Serialize(s) => {
                let mut t = String::from_str("消息序列化失败: ");
                t.append(s.as_str());
                t
            },
            P2pError::Deserialize(s) => {
                let mut t = String::from_str("消息反序列化失败: ");
                t.append(s.as_str());
                t
            },
            P2pError::InvalidMessage(s) => {
                let mut t = String::from_str("消息结构校验失败: ");
                t.append(s.as_str());
                t
            },
            P2pError::StaleSequence { seq, expected } => {
                let mut t = String::from_str("消息序号过旧: seq=");
                let a = dec_u64(*seq);
                t.append(a.as_str());
                t.append(", expected=");
                let b = dec_u64(*expected);
                t.append(b.as_str());
                t
            },
            P2pError::InvalidArgument(s) => {
                let mut t = String::from_str("参数不合法: ");
                t.append(s.as_str());
                t
            },
        }
    }
}

} // verus!
