//! Transactions: kinds, the text that identifies a transaction, its id and
//! its structural check.
//!
//! The id is the SHA-256 (lowercase hex) of the identifying text followed by
//! the signature; the identifying text is
//! `kind|from|to|amount|nonce|timestamp|payload-hex`.

use vstd::prelude::*;
use vstd::utf8::encode_utf8;
use crate::binary::append_bytes;
use crate::chain_error::{CoreError, CoreErrorV};
use crate::crypto::{CryptoError, CryptoErrorV, sign_message, verify_message, sign_spec, verify_spec};
use crate::hash::{hex_encode, hex_lower, sha256_hex, spec_sha256_hex};
use crate::message::copy_bytes;
use crate::text::{dec_u64, dec_i64, dec_nat, dec_int, is_blank, is_blank_seq, str_eq};

verus! {

/// Sender of system rewards.
pub const SYSTEM_ADDRESS: &'static str = "__system__";

/// The sender of system rewards, as characters.
pub open spec fn system_address() -> Seq<char> {
    "__system__"@
}

/// Kind of a transaction.
#[derive(Debug, Clone, Copy, PartialEq, Eq, Structural)]
pub enum TransactionKind {
    /// A transfer.
    Transfer,
    /// A contract deployment.
    ContractDeploy,
    /// A contract call.
    ContractCall,
    /// A lending action.
    DefiAction,
    /// An NFT mint.
    NftMint,
    /// An NFT transfer.
    NftTransfer,
    /// A system reward.
    SystemReward,
}

/// The stable name of a kind.
pub open spec fn kind_name(k: TransactionKind) -> &'static str {
    match k {
        TransactionKind::Transfer => "transfer",
        TransactionKind::ContractDeploy => "contract_deploy",
        TransactionKind::ContractCall => "contract_call",
        TransactionKind::DefiAction => "defi_action",
        TransactionKind::NftMint => "nft_mint",
        TransactionKind::NftTransfer => "nft_transfer",
        TransactionKind::SystemReward => "system_reward",
    }
}

impl TransactionKind {
    /// The stable name of the kind, part of the transaction id.
    pub fn as_str(&self) -> (r: &'static str)
        ensures
            r == kind_name(*self),
    {
        match self {
            TransactionKind::Transfer => "transfer",
            TransactionKind::ContractDeploy => "contract_deploy",
            TransactionKind::ContractCall => "contract_call",
            TransactionKind::DefiAction => "defi_action",
            TransactionKind::NftMint => "nft_mint",
            TransactionKind::NftTransfer => "nft_transfer",
            TransactionKind::SystemReward => "system_reward",
        }
    }
}

/// A transaction.
#[derive(Debug, Clone, PartialEq, Eq)]
pub struct Transaction {
    /// Id.
    pub id: String,
    /// Kind.
    pub kind: TransactionKind,
    /// Sender.
    pub from: String,
    /// Recipient.
    pub to: String,
    /// Amount.
    pub amount: u64,
    /// Sender's sequence number.
    pub nonce: u64,
    /// Creation time (seconds).
    pub timestamp: i64,
    /// Signature, in hexadecimal.
    pub signature: Option<String>,
    /// Extra data (contract source, lending action).
    pub payload: Option<Vec<u8>>,
}

/// A transaction, viewed.
pub struct TransactionV {
    pub id: Seq<char>,
    pub kind: TransactionKind,
    pub from: Seq<char>,
    pub to: Seq<char>,
    pub amount: u64,
    pub nonce: u64,
    pub timestamp: i64,
    pub signature: Option<Seq<char>>,
    pub payload: Option<Seq<u8>>,
}

impl View for Transaction {
    type V = TransactionV;

    open spec fn view(&self) -> TransactionV {
        TransactionV {
            id: self.id@,
            kind: self.kind,
            from: self.from@,
            to: self.to@,
            amount: self.amount,
            nonce: self.nonce,
            timestamp: self.timestamp,
            signature: match self.signature { Some(s) => Some(s@), None => None },
            payload: match self.payload { Some(p) => Some(p@), None => None },
        }
    }
}

/// The identifying text of a transaction.
pub open spec fn signing_text(t: TransactionV) -> Seq<char> {
    kind_name(t.kind)@ + "|"@ + t.from + "|"@ + t.to + "|"@ + dec_nat(t.amount as nat) + "|"@ + dec_nat(t.nonce as nat) + "|"@
        + dec_int(t.timestamp as int) + "|"@ + match t.payload { Some(p) => hex_lower(p), None => Seq::empty() }
}

/// The id a transaction should have.
pub open spec fn tx_id_spec(t: TransactionV) -> Seq<char> {
    spec_sha256_hex(encode_utf8(signing_text(t)) + encode_utf8(match t.signature { Some(s) => s, None => Seq::empty() }))
}

/// Whether a transaction is a system one.
pub open spec fn is_system_spec(t: TransactionV) -> bool {
    t.kind == TransactionKind::SystemReward || t.from == system_address()
}

/// The structural check of a transaction.
pub open spec fn tx_check(t: TransactionV) -> Result<(), CoreErrorV> {
    if t.amount == 0 {
        Err(CoreErrorV::ZeroAmount)
    } else if !is_system_spec(t) && is_blank_seq(t.from) {
        Err(CoreErrorV::MissingSender)
    } else if is_blank_seq(t.to) {
        Err(CoreErrorV::MissingRecipient)
    } else if t.id != tx_id_spec(t) {
        Err(CoreErrorV::InvalidTransactionId(t.id))
    } else {
        Ok(())
    }
}

/// Signing a transaction with a hex private key, checked under the sender's
/// hex public key: the hex signature of its identifying bytes, or why not.
pub open spec fn tx_sign_spec(t: TransactionV, private_key_hex: Seq<char>, public_key_hex: Seq<char>) -> Result<Seq<char>, CryptoErrorV> {
    let message = encode_utf8(signing_text(t));
    match sign_spec(message, private_key_hex) {
        Err(e) => Err(e),
        Ok(sig) => match verify_spec(message, sig, public_key_hex) {
            Err(e) => Err(e),
            Ok(ok) => if ok { Ok(sig) } else { Err(CryptoErrorV::InvalidSignature) },
        },
    }
}

/// A transaction carrying signature `sig`, with the id that goes with it.
pub open spec fn signed_tx(t: TransactionV, sig: Seq<char>) -> TransactionV {
    let u = TransactionV { signature: Some(sig), ..t };
    TransactionV { id: tx_id_spec(u), ..u }
}

/// A unit result, viewed.
pub open spec fn unit_result(r: Result<(), CoreError>) -> Result<(), CoreErrorV> {
    match r {
        Ok(_) => Ok(()),
        Err(e) => Err(e@),
    }
}

/// Reads the clock: seconds since the Unix epoch. Nothing is stated of the
/// value: it is the time.
#[verifier::external_body]
pub(crate) fn unix_now() -> i64 {
    chrono::Utc::now().timestamp()
}

/// A copy of a transaction.
pub fn copy_transaction(t: &Transaction) -> (r: Transaction)
    ensures
        r@ == t@,
{
    Transaction {
        id: t.id.clone(),
        kind: t.kind,
        from: t.from.clone(),
        to: t.to.clone(),
        amount: t.amount,
        nonce: t.nonce,
        timestamp: t.timestamp,
        signature: match &t.signature { Some(s) => Some(s.clone()), None => None },
        payload: match &t.payload { Some(p) => Some(copy_bytes(p)), None => None },
    }
}

impl Transaction {
    /// A transfer created now, with its id.
    pub fn new(from: &str, to: &str, amount: u64, payload: Option<Vec<u8>>) -> (r: Self)
        ensures
            r.kind == TransactionKind::Transfer,
            r.from@ == from@,
            r.to@ == to@,
            r.amount == amount,
            r.nonce == 0,
            r.signature is None,
            r@.payload == (match payload { Some(p) => Some(p@), None => None::<Seq<u8>> }),
            r.id@ == tx_id_spec(r@),
            r.id@.len() == 64,
    {
        Self::new_with_kind(TransactionKind::Transfer, from, to, amount, 0, payload)
    }

    /// A transaction of the given kind created now, with its id.
    pub fn new_with_kind(kind: TransactionKind, from: &str, to: &str, amount: u64, nonce: u64, payload: Option<Vec<u8>>) -> (r: Self)
        ensures
            r.kind == kind,
            r.from@ == from@,
            r.to@ == to@,
            r.amount == amount,
            r.nonce == nonce,
            r.signature is None,
            r@.payload == (match payload { Some(p) => Some(p@), None => None::<Seq<u8>> }),
            r.id@ == tx_id_spec(r@),
            r.id@.len() == 64,
    {
        let mut tx = Transaction {
            id: String::new(),
            kind,
            from: String::from_str(from),
            to: String::from_str(to),
            amount,
            nonce,
            timestamp: unix_now(),
            signature: None,
            payload,
        };
        tx.refresh_id();
        tx
    }

    /// A system reward to `to`, created now, with its id.
    pub fn system(to: &str, amount: u64, payload: Option<Vec<u8>>) -> (r: Self)
        ensures
            r.kind == TransactionKind::SystemReward,
            r.from@ == system_address(),
            r.to@ == to@,
            r.amount == amount,
            r.nonce == 0,
            r.signature is None,
            r@.payload == (match payload { Some(p) => Some(p@), None => None::<Seq<u8>> }),
            r.id@ == tx_id_spec(r@),
            r.id@.len() == 64,
    {
        let mut tx = Transaction {
            id: String::new(),
            kind: TransactionKind::SystemReward,
            from: String::from_str(SYSTEM_ADDRESS),
            to: String::from_str(to),
            amount,
            nonce: 0,
            timestamp: unix_now(),
            signature: None,
            payload,
        };
        proof { reveal_strlit("__system__"); }
        tx.refresh_id();
        tx
    }

    /// The identifying text of the transaction, as bytes.
    pub fn signing_payload(&self) -> (r: Vec<u8>)
        ensures
            r@ == encode_utf8(signing_text(self@)),
    {
        let mut s = String::from_str(self.kind.as_str());
        s.append("|");
        s.append(self.from.as_str());
        s.append("|");
        s.append(self.to.as_str());
        s.append("|");
        let a = dec_u64(self.amount);
        s.append(a.as_str());
        s.append("|");
        let n = dec_u64(self.nonce);
        s.append(n.as_str());
        s.append("|");
        let t = dec_i64(self.timestamp);
        s.append(t.as_str());
        s.append("|");
        match &self.payload {
            Some(p) => {
                let h = hex_encode(p.as_slice());
                s.append(h.as_str());
            },
            None => {},
        }
        proof {
            assert(s@ =~= signing_text(self@));
        }
        let mut out: Vec<u8> = Vec::new();
        append_bytes(&mut out, s.as_str().as_bytes());
        proof { assert(out@ =~= encode_utf8(signing_text(self@))); }
        out
    }

    /// The id the transaction should have.
    pub fn calculate_id(&self) -> (r: String)
        ensures
            r@ == tx_id_spec(self@),
            r@.len() == 64,
    {
        let mut bytes = self.signing_payload();
        match &self.signature {
            Some(sig) => append_bytes(&mut bytes, sig.as_str().as_bytes()),
            None => {
                proof { assert(bytes@ + encode_utf8(Seq::<char>::empty()) =~= bytes@); }
            },
        }
        sha256_hex(bytes.as_slice())
    }

    /// Recomputes the id, after the signature changed.
    pub fn refresh_id(&mut self)
        ensures
            final(self)@ == (TransactionV { id: tx_id_spec(old(self)@), ..old(self)@ }),
            final(self).id@.len() == 64,
    {
        self.id = self.calculate_id();
    }

    /// Signs the transaction with a hex private key. The signature must
    /// verify under the sender's hex public key; it is then stored and the
    /// id refreshed. On failure the transaction is unchanged.
    pub fn sign_with_private_key(&mut self, private_key_hex: &str, public_key_hex: &str) -> (r: Result<(), CryptoError>)
        ensures
            match tx_sign_spec(old(self)@, private_key_hex@, public_key_hex@) {
                Ok(sig) => r is Ok && final(self)@ == signed_tx(old(self)@, sig),
                Err(e) => r is Err && r->Err_0@ == e && final(self)@ == old(self)@,
            },
    {
        let message = self.signing_payload();
        let sig = match sign_message(message.as_slice(), private_key_hex) {
            Err(e) => { return Err(e); },
            Ok(s) => s,
        };
        match verify_message(message.as_slice(), sig.as_str(), public_key_hex) {
            Err(e) => { return Err(e); },
            Ok(ok) => {
                if !ok {
                    return Err(CryptoError::InvalidSignature);
                }
            },
        }
        self.signature = Some(sig);
        self.refresh_id();
        Ok(())
    }

    /// Whether the transaction is a system one.
    pub fn is_system(&self) -> (r: bool)
        ensures
            r == is_system_spec(self@),
    {
        proof { reveal_strlit("__system__"); }
        matches!(self.kind, TransactionKind::SystemReward) || str_eq(self.from.as_str(), SYSTEM_ADDRESS)
    }

    /// Checks amount, sender, recipient and id.
    pub fn validate_basic(&self) -> (r: Result<(), CoreError>)
        ensures
            unit_result(r) == tx_check(self@),
    {
        if self.amount == 0 {
            return Err(CoreError::ZeroAmount);
        }
        if !self.is_system() && is_blank(self.from.as_str()) {
            return Err(CoreError::MissingSender);
        }
        if is_blank(self.to.as_str()) {
            return Err(CoreError::MissingRecipient);
        }
        let expected = self.calculate_id();
        if !str_eq(self.id.as_str(), expected.as_str()) {
            return Err(CoreError::InvalidTransactionId(self.id.clone()));
        }
        Ok(())
    }
}

} // verus!
