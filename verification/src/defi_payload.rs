//! The payload of a lending transaction: an action, the position's owner and
//! an amount, in the binary layout of `binary` (the action as its 32-bit
//! variant number). The payload takes part in the transaction id, so this
//! layout is part of the chain's format.

use vstd::prelude::*;
use vstd::utf8::encode_utf8;
use crate::binary::{enc_u32, enc_u64, enc_str, dec_u32, dec_u64, dec_str, at, lemma_enc_lens, lemma_dec_u32, lemma_dec_u64, lemma_dec_str, put_u32, put_u64, put_str, get_u32, get_u64, get_str};
use crate::text::{is_blank, is_blank_seq};
use crate::wire::lemma_at_concat;

verus! {

/// A lending action.
#[derive(Debug, Clone, Copy, PartialEq, Eq, Structural)]
pub enum DefiAction {
    /// Deposit collateral.
    DepositCollateral,
    /// Borrow.
    Borrow,
    /// Repay.
    Repay,
    /// Withdraw collateral.
    WithdrawCollateral,
    /// Liquidate an unhealthy position.
    Liquidate,
}

/// The stable name of an action.
pub open spec fn action_name(a: DefiAction) -> &'static str {
    match a {
        DefiAction::DepositCollateral => "deposit_collateral",
        DefiAction::Borrow => "borrow",
        DefiAction::Repay => "repay",
        DefiAction::WithdrawCollateral => "withdraw_collateral",
        DefiAction::Liquidate => "liquidate",
    }
}

/// The variant number of an action.
pub open spec fn action_tag(a: DefiAction) -> u32 {
    match a {
        DefiAction::DepositCollateral => 0,
        DefiAction::Borrow => 1,
        DefiAction::Repay => 2,
        DefiAction::WithdrawCollateral => 3,
        DefiAction::Liquidate => 4,
    }
}

/// The action with a variant number.
pub open spec fn action_of(t: u32) -> Option<DefiAction> {
    if t == 0 { Some(DefiAction::DepositCollateral) }
    else if t == 1 { Some(DefiAction::Borrow) }
    else if t == 2 { Some(DefiAction::Repay) }
    else if t == 3 { Some(DefiAction::WithdrawCollateral) }
    else if t == 4 { Some(DefiAction::Liquidate) }
    else { None }
}

impl DefiAction {
    /// The stable name of the action.
    pub fn as_str(&self) -> (r: &'static str)
        ensures
            r == action_name(*self),
    {
        match self {
            DefiAction::DepositCollateral => "deposit_collateral",
            DefiAction::Borrow => "borrow",
            DefiAction::Repay => "repay",
            DefiAction::WithdrawCollateral => "withdraw_collateral",
            DefiAction::Liquidate => "liquidate",
        }
    }
}

/// A lending payload.
#[derive(Debug, Clone, PartialEq, Eq)]
pub struct DefiPayload {
    /// The action.
    pub action: DefiAction,
    /// Owner of the position (the borrower, for a liquidation).
    pub owner: String,
    /// Amount.
    pub amount: u64,
}

/// A payload, viewed.
pub struct DefiPayloadV {
    pub action: DefiAction,
    pub owner: Seq<char>,
    pub amount: u64,
}

impl View for DefiPayload {
    type V = DefiPayloadV;

    open spec fn view(&self) -> DefiPayloadV {
        DefiPayloadV { action: self.action, owner: self.owner@, amount: self.amount }
    }
}

/// Payload errors.
#[derive(Debug, Clone, PartialEq, Eq)]
pub enum DefiPayloadError {
    /// Could not be written.
    Encode(String),
    /// Bytes do not form a payload.
    Decode(String),
    /// The owner is blank.
    EmptyOwner,
    /// The amount is zero.
    ZeroAmount,
}

/// The text of a payload error.
pub open spec fn payload_error_text(e: DefiPayloadError) -> Seq<char> {
    match e {
        DefiPayloadError::Encode(s) => "DeFi 载荷编码失败: "@ + s@,
        DefiPayloadError::Decode(s) => "DeFi 载荷解码失败: "@ + s@,
        DefiPayloadError::EmptyOwner => "DeFi 载荷 owner 不能为空"@,
        DefiPayloadError::ZeroAmount => "DeFi 载荷 amount 必须大于 0"@,
    }
}

impl DefiPayloadError {
    /// The error as text.
    pub fn message(&self) -> (r: String)
        ensures
            r@ == payload_error_text(*self),
    {
        match self {
            DefiPayloadError::Encode(s) => {
                let mut t = String::from_str("DeFi 载荷编码失败: ");
                t.append(s.as_str());
                t
            },
            DefiPayloadError::Decode(s) => {
                let mut t = String::from_str("DeFi 载荷解码失败: ");
                t.append(s.as_str());
                t
            },
            DefiPayloadError::EmptyOwner => String::from_str("DeFi 载荷 owner 不能为空"),
            DefiPayloadError::ZeroAmount => String::from_str("DeFi 载荷 amount 必须大于 0"),
        }
    }
}

/// The bytes of a payload.
pub open spec fn payload_bytes(p: DefiPayloadV) -> Seq<u8> {
    enc_u32(action_tag(p.action)) + (enc_str(p.owner) + enc_u64(p.amount))
}

/// Reads a payload at the start of `d`.
pub open spec fn parse_payload(d: Seq<u8>) -> Option<DefiPayloadV> {
    match dec_u32(d, 0) {
        None => None,
        Some((t, p)) => match action_of(t) {
            None => None,
            Some(action) => match dec_str(d, p) {
                None => None,
                Some((owner, q)) => match dec_u64(d, q) {
                    None => None,
                    Some((amount, _)) => Some(DefiPayloadV { action, owner, amount }),
                },
            },
        },
    }
}

/// The text of a failed read.
pub open spec fn payload_decode_text() -> Seq<char> {
    "bytes do not form a lending payload"@
}

/// The check of a payload's fields.
pub open spec fn payload_check(p: DefiPayloadV) -> Result<(), DefiPayloadError> {
    if is_blank_seq(p.owner) {
        Err(DefiPayloadError::EmptyOwner)
    } else if p.amount == 0 {
        Err(DefiPayloadError::ZeroAmount)
    } else {
        Ok(())
    }
}

/// Reading the bytes of a payload, whatever follows them, gives the payload.
pub proof fn law_payload_roundtrip(p: DefiPayloadV, rest: Seq<u8>)
    requires
        encode_utf8(p.owner).len() <= u64::MAX,
    ensures
        parse_payload(payload_bytes(p) + rest) == Some(p),
{
    lemma_enc_lens();
    let d = payload_bytes(p) + rest;
    let w = payload_bytes(p);
    assert(d.subrange(0, w.len() as int) =~= w);
    lemma_at_concat(d, 0, enc_u32(action_tag(p.action)), enc_str(p.owner) + enc_u64(p.amount));
    lemma_at_concat(d, 4, enc_str(p.owner), enc_u64(p.amount));
    lemma_dec_u32(d, 0, action_tag(p.action));
    lemma_dec_str(d, 4, p.owner);
    lemma_dec_u64(d, (4 + enc_str(p.owner).len()) as int, p.amount);
}

impl DefiPayload {
    /// A payload.
    pub fn new(action: DefiAction, owner: &str, amount: u64) -> (r: Self)
        ensures
            r@ == (DefiPayloadV { action, owner: owner@, amount }),
    {
        DefiPayload { action, owner: String::from_str(owner), amount }
    }

    /// Whether the action must come from the position's owner: all but a
    /// liquidation, which a third party starts on the borrower's position.
    pub fn is_self_operated(&self) -> (r: bool)
        ensures
            r == (self.action != DefiAction::Liquidate),
    {
        !matches!(self.action, DefiAction::Liquidate)
    }

    /// The payload's bytes.
    pub fn encode(&self) -> (r: Result<Vec<u8>, DefiPayloadError>)
        ensures
            r is Ok,
            r->Ok_0@ == payload_bytes(self@),
            encode_utf8(self.owner@).len() <= u64::MAX,
    {
        let mut out: Vec<u8> = Vec::new();
        let tag: u32 = match self.action {
            DefiAction::DepositCollateral => 0,
            DefiAction::Borrow => 1,
            DefiAction::Repay => 2,
            DefiAction::WithdrawCollateral => 3,
            DefiAction::Liquidate => 4,
        };
        put_u32(&mut out, tag);
        put_str(&mut out, self.owner.as_str());
        put_u64(&mut out, self.amount);
        proof { assert(out@ =~= payload_bytes(self@)); }
        Ok(out)
    }

    /// The payload at the start of `raw`.
    pub fn decode(raw: &[u8]) -> (r: Result<Self, DefiPayloadError>)
        ensures
            match parse_payload(raw@) {
                Some(p) => r is Ok && r->Ok_0@ == p,
                None => r is Err && (r->Err_0 matches DefiPayloadError::Decode(s) && s@ == payload_decode_text()),
            },
    {
        let fail = DefiPayloadError::Decode(String::from_str("bytes do not form a lending payload"));
        let (t, p) = match get_u32(raw, 0) { Some(x) => x, None => { return Err(fail); } };
        let action = if t == 0 {
            DefiAction::DepositCollateral
        } else if t == 1 {
            DefiAction::Borrow
        } else if t == 2 {
            DefiAction::Repay
        } else if t == 3 {
            DefiAction::WithdrawCollateral
        } else if t == 4 {
            DefiAction::Liquidate
        } else {
            return Err(fail);
        };
        let (owner, q) = match get_str(raw, p) { Some(x) => x, None => { return Err(fail); } };
        let (amount, _) = match get_u64(raw, q) { Some(x) => x, None => { return Err(fail); } };
        Ok(DefiPayload { action, owner, amount })
    }

    /// Checks that the owner is not blank and the amount is positive.
    pub fn validate(&self) -> (r: Result<(), DefiPayloadError>)
        ensures
            r == payload_check(self@),
    {
        if is_blank(self.owner.as_str()) {
            return Err(DefiPayloadError::EmptyOwner);
        }
        if self.amount == 0 {
            return Err(DefiPayloadError::ZeroAmount);
        }
        Ok(())
    }
}

} // verus!
