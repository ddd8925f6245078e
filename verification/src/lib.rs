//! RustChain: a small proof-of-work blockchain with a lending pool, an NFT
//! marketplace, a stack-based contract VM and a framed peer-to-peer protocol.

pub mod text;
pub mod hash;
pub mod keyed;
pub mod bytecode;
pub mod runtime;
pub mod compiler;
pub mod defi;
pub mod nft;
pub mod binary;
pub mod message;
pub mod wire;
pub mod p2p_error;
pub mod codec;
pub mod queue;
pub mod order;
pub mod peer;
pub mod engine;
pub mod transport;
pub mod chain_error;
pub mod transaction;
pub mod pow;
pub mod merkle;
pub mod block;
pub mod defi_payload;
pub mod ledger;
pub mod blockchain;
pub mod storage;
pub mod config;
pub mod crypto;
pub mod chain_codec;
pub mod chain_query;
pub mod node;
pub mod cli;
pub mod service;
