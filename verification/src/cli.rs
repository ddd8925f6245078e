//! The command-line client: reading and checking its arguments, and turning
//! each command into the REST request it sends or the local work it does
//! (creating a wallet, signing a transaction).

use vstd::prelude::*;
use crate::block::{Block, genesis_spec};
use crate::config::{AppConfig, AppError, parse_uint, parse_uint_spec, int_error_text, lemma_parse_uint_bound};
use crate::message::{ChainStatus, ChainStatusV, NetworkMessage, NetworkMessageV};
use crate::text::{is_blank, is_blank_seq, str_eq, dec_u64, dec_nat};
use crate::transaction::{Transaction, TransactionKind, TransactionV, tx_id_spec, tx_check, tx_sign_spec, signed_tx};
use crate::chain_error::core_error_text;
use crate::crypto::{Wallet, WalletKeyPair, create_wallet, crypto_error_text, wallet_spec};
use vstd::utf8::encode_utf8;

verus! {

// ---------------------------------------------------------------- arguments

/// Whether `e` is the command error with message `m`.
pub open spec fn command_error(e: AppError, m: Seq<char>) -> bool {
    match e {
        AppError::Command(s) => s@ == m,
        _ => false,
    }
}

/// Whether a result is `Ok(v)` when `s` is, or the command error `s` names.
pub open spec fn outcome_is<T>(r: Result<T, AppError>, s: Result<T, Seq<char>>) -> bool {
    match s {
        Ok(v) => r == Ok::<T, AppError>(v),
        Err(m) => r is Err && command_error(r->Err_0, m),
    }
}

/// The arguments, viewed.
pub open spec fn args_view(args: Seq<String>) -> Seq<Seq<char>> {
    args.map_values(|s: String| s@)
}

/// The base URL of the REST API.
pub fn api_base_url(config: &AppConfig) -> (r: String)
    ensures
        r@ == "http://"@ + config.api_host@ + ":"@ + dec_nat(config.api_port as nat),
{
    let mut s = String::from_str("http://");
    let addr = config.api_listen_addr();
    s.append(addr.as_str());
    s
}

/// A required argument: present and not blank.
pub open spec fn required(a: Seq<Seq<char>>, index: int, name: Seq<char>) -> Result<Seq<char>, Seq<char>> {
    if 0 <= index < a.len() && !is_blank_seq(a[index]) {
        Ok(a[index])
    } else {
        Err("缺少参数: "@ + name)
    }
}

/// Reads a required argument.
pub fn require_arg<'a>(args: &'a [String], index: usize, name: &str) -> (r: Result<&'a str, AppError>)
    ensures
        match required(args_view(args@), index as int, name@) {
            Ok(v) => r is Ok && r->Ok_0@ == v,
            Err(m) => r is Err && command_error(r->Err_0, m),
        },
{
    if index < args.len() && !is_blank(args[index].as_str()) {
        Ok(args[index].as_str())
    } else {
        let mut m = String::from_str("缺少参数: ");
        m.append(name);
        Err(AppError::Command(m))
    }
}

/// The message for an argument that does not parse.
pub open spec fn parse_failure_text(name: Seq<char>, e: crate::config::IntParseError) -> Seq<char> {
    name + " 参数解析失败: "@ + int_error_text(e)
}

/// The command error for an argument that does not parse.
fn parse_failure(name: &str, e: crate::config::IntParseError) -> (r: AppError)
    ensures
        command_error(r, parse_failure_text(name@, e)),
{
    let mut m = String::from_str(name);
    m.append(" 参数解析失败: ");
    let t = e.message();
    m.append(t.as_str());
    AppError::Command(m)
}

/// A required unsigned argument.
pub open spec fn u64_arg(a: Seq<Seq<char>>, index: int, name: Seq<char>) -> Result<u64, Seq<char>> {
    match required(a, index, name) {
        Err(m) => Err(m),
        Ok(raw) => match parse_uint_spec(raw, u64::MAX as int) {
            Ok(v) => Ok(v as u64),
            Err(e) => Err(parse_failure_text(name, e)),
        },
    }
}

/// Reads and parses a required unsigned argument.
pub fn parse_u64_arg(args: &[String], index: usize, name: &str) -> (r: Result<u64, AppError>)
    ensures
        outcome_is(r, u64_arg(args_view(args@), index as int, name@)),
{
    let raw = match require_arg(args, index, name) {
        Err(e) => { return Err(e); },
        Ok(s) => s,
    };
    match parse_uint(raw, u64::MAX) {
        Ok(v) => Ok(v),
        Err(e) => Err(parse_failure(name, e)),
    }
}

/// An optional unsigned argument not above `max`: `default` when absent.
/// A present argument must parse, blank or not.
pub open spec fn optional_arg(a: Seq<Seq<char>>, index: int, name: Seq<char>, max: int, default: int) -> Result<int, Seq<char>> {
    if 0 <= index < a.len() {
        match parse_uint_spec(a[index], max) {
            Ok(v) => Ok(v),
            Err(e) => Err(parse_failure_text(name, e)),
        }
    } else {
        Ok(default)
    }
}

/// Reads an optional unsigned argument.
fn optional_number(args: &[String], index: usize, name: &str, max: u64, default: u64) -> (r: Result<u64, AppError>)
    requires
        default <= max,
    ensures
        match optional_arg(args_view(args@), index as int, name@, max as int, default as int) {
            Ok(v) => r is Ok && r->Ok_0 == v,
            Err(m) => r is Err && command_error(r->Err_0, m),
        },
        r is Ok ==> r->Ok_0 <= max,
{
    if index < args.len() {
        proof {
            assert(args_view(args@)[index as int] == args@[index as int]@);
            lemma_parse_uint_bound(args@[index as int]@, max as int);
        }
        match parse_uint(args[index].as_str(), max) {
            Ok(v) => Ok(v),
            Err(e) => Err(parse_failure(name, e)),
        }
    } else {
        Ok(default)
    }
}

// ---------------------------------------------------------------- requests

/// HTTP methods the client uses.
#[derive(Debug, Clone, Copy, PartialEq, Eq, Structural)]
pub enum HttpMethod {
    Get,
    Post,
}

/// A value in a JSON request body.
#[derive(Debug, Clone, PartialEq, Eq)]
pub enum FieldValue {
    Text(String),
    Number(u64),
}

/// A body value, viewed.
pub enum FieldV {
    Text(Seq<char>),
    Number(u64),
}

impl View for FieldValue {
    type V = FieldV;

    open spec fn view(&self) -> FieldV {
        match self {
            FieldValue::Text(s) => FieldV::Text(s@),
            FieldValue::Number(n) => FieldV::Number(*n),
        }
    }
}

/// The body of a request.
#[derive(Debug, Clone, PartialEq, Eq)]
pub enum RequestBody {
    /// No body.
    Empty,
    /// A flat JSON object.
    Fields(Vec<(String, FieldValue)>),
    /// `{"transaction": ...}`.
    Transaction(Transaction),
    /// A message for the peer-to-peer endpoint.
    P2pMessage { peer_id: String, address: String, sequence: u64, message: NetworkMessage },
    /// Contract source, with an optional step limit.
    Source { source: String, max_steps: Option<usize> },
}

/// A body, viewed.
pub enum BodyV {
    Empty,
    Fields(Seq<(Seq<char>, FieldV)>),
    Transaction(TransactionV),
    P2pMessage { peer_id: Seq<char>, address: Seq<char>, sequence: u64, message: NetworkMessageV },
    Source { source: Seq<char>, max_steps: Option<usize> },
}

/// Body fields, viewed.
pub open spec fn fields_view(f: Seq<(String, FieldValue)>) -> Seq<(Seq<char>, FieldV)> {
    f.map_values(|p: (String, FieldValue)| (p.0@, p.1@))
}

impl View for RequestBody {
    type V = BodyV;

    open spec fn view(&self) -> BodyV {
        match self {
            RequestBody::Empty => BodyV::Empty,
            RequestBody::Fields(f) => BodyV::Fields(fields_view(f@)),
            RequestBody::Transaction(t) => BodyV::Transaction(t@),
            RequestBody::P2pMessage { peer_id, address, sequence, message } =>
                BodyV::P2pMessage { peer_id: peer_id@, address: address@, sequence: *sequence, message: message@ },
            RequestBody::Source { source, max_steps } => BodyV::Source { source: source@, max_steps: *max_steps },
        }
    }
}

/// A request to the REST API, with the label its answer is printed under.
#[derive(Debug, Clone, PartialEq, Eq)]
pub struct ApiCall {
    pub label: String,
    pub method: HttpMethod,
    pub path: String,
    pub body: RequestBody,
}

/// A request, viewed.
pub struct CallV {
    pub label: Seq<char>,
    pub method: HttpMethod,
    pub path: Seq<char>,
    pub body: BodyV,
}

impl View for ApiCall {
    type V = CallV;

    open spec fn view(&self) -> CallV {
        CallV { label: self.label@, method: self.method, path: self.path@, body: self.body@ }
    }
}

/// A GET request.
pub open spec fn get_call(label: Seq<char>, path: Seq<char>) -> CallV {
    CallV { label, method: HttpMethod::Get, path, body: BodyV::Empty }
}

/// A POST request.
pub open spec fn post_call(label: Seq<char>, path: Seq<char>, body: BodyV) -> CallV {
    CallV { label, method: HttpMethod::Post, path, body }
}

/// A GET request.
fn get(label: &str, path: String) -> (r: ApiCall)
    ensures
        r@ == get_call(label@, path@),
{
    ApiCall { label: String::from_str(label), method: HttpMethod::Get, path, body: RequestBody::Empty }
}

/// A POST request.
fn post(label: &str, path: &str, body: RequestBody) -> (r: ApiCall)
    ensures
        r@ == post_call(label@, path@, body@),
{
    ApiCall { label: String::from_str(label), method: HttpMethod::Post, path: String::from_str(path), body }
}

/// `prefix` followed by `tail`.
fn joined(prefix: &str, tail: &str) -> (r: String)
    ensures
        r@ == prefix@ + tail@,
{
    let mut s = String::from_str(prefix);
    s.append(tail);
    s
}

/// A text field.
fn text_field(name: &str, value: &str) -> (r: (String, FieldValue))
    ensures
        r.0@ == name@,
        r.1@ == FieldV::Text(value@),
{
    (String::from_str(name), FieldValue::Text(String::from_str(value)))
}

/// A number field.
fn number_field(name: &str, value: u64) -> (r: (String, FieldValue))
    ensures
        r.0@ == name@,
        r.1@ == FieldV::Number(value),
{
    (String::from_str(name), FieldValue::Number(value))
}

/// A body of two fields.
fn two_fields(a: (String, FieldValue), b: (String, FieldValue)) -> (r: RequestBody)
    ensures
        r@ == BodyV::Fields(seq![(a.0@, a.1@), (b.0@, b.1@)]),
{
    let mut v: Vec<(String, FieldValue)> = Vec::new();
    v.push(a);
    v.push(b);
    proof { assert(fields_view(v@) =~= seq![(a.0@, a.1@), (b.0@, b.1@)]); }
    RequestBody::Fields(v)
}


// ---------------------------------------------------------------- commands

/// What a command asks for: a request to send, or local work whose inputs
/// the arguments gave.
#[derive(Debug, Clone, PartialEq, Eq)]
pub enum CliStep {
    /// Print the usage.
    Help,
    /// Send a request and print its answer.
    Call(ApiCall),
    /// Create a wallet protected by a password.
    CreateWallet { password: String },
    /// Sign a demonstration transfer between two new wallets.
    SignDemo { amount: u64 },
    /// Sign a transfer and submit it.
    Transfer { from: String, to: String, amount: u64, private_key: String, public_key: String, payload: Vec<u8> },
    /// Read a contract source file, then sign a call carrying it and submit it.
    ContractCallFile { from: String, to: String, amount: u64, private_key: String, public_key: String, source_path: String, nonce: u64 },
    /// Read a contract source file and have the API compile it.
    VmCompileFile { source_path: String },
    /// Read a contract source file and have the API run it; the step limit
    /// argument is checked after the file is read.
    VmExecuteFile { source_path: String, max_steps: Option<String> },
}

/// A step, viewed.
pub enum StepV {
    Help,
    Call(CallV),
    CreateWallet { password: Seq<char> },
    SignDemo { amount: u64 },
    Transfer { from: Seq<char>, to: Seq<char>, amount: u64, private_key: Seq<char>, public_key: Seq<char>, payload: Seq<u8> },
    ContractCallFile { from: Seq<char>, to: Seq<char>, amount: u64, private_key: Seq<char>, public_key: Seq<char>, source_path: Seq<char>, nonce: u64 },
    VmCompileFile { source_path: Seq<char> },
    VmExecuteFile { source_path: Seq<char>, max_steps: Option<Seq<char>> },
}

impl View for CliStep {
    type V = StepV;

    open spec fn view(&self) -> StepV {
        match self {
            CliStep::Help => StepV::Help,
            CliStep::Call(c) => StepV::Call(c@),
            CliStep::CreateWallet { password } => StepV::CreateWallet { password: password@ },
            CliStep::SignDemo { amount } => StepV::SignDemo { amount: *amount },
            CliStep::Transfer { from, to, amount, private_key, public_key, payload } => StepV::Transfer {
                from: from@, to: to@, amount: *amount, private_key: private_key@, public_key: public_key@, payload: payload@,
            },
            CliStep::ContractCallFile { from, to, amount, private_key, public_key, source_path, nonce } => StepV::ContractCallFile {
                from: from@, to: to@, amount: *amount, private_key: private_key@, public_key: public_key@,
                source_path: source_path@, nonce: *nonce,
            },
            CliStep::VmCompileFile { source_path } => StepV::VmCompileFile { source_path: source_path@ },
            CliStep::VmExecuteFile { source_path, max_steps } => StepV::VmExecuteFile {
                source_path: source_path@,
                max_steps: match max_steps { Some(m) => Some(m@), None => None },
            },
        }
    }
}

/// Whether a step result is the one `s` describes.
pub open spec fn step_is(r: Result<CliStep, AppError>, s: Result<StepV, Seq<char>>) -> bool {
    match s {
        Ok(v) => r is Ok && r->Ok_0@ == v,
        Err(m) => r is Err && command_error(r->Err_0, m),
    }
}

/// A GET request for a path built from one argument.
pub open spec fn get_with(a: Seq<Seq<char>>, index: int, name: Seq<char>, label: Seq<char>, before: Seq<char>, after: Seq<char>) -> Result<StepV, Seq<char>> {
    match required(a, index, name) {
        Err(m) => Err(m),
        Ok(x) => Ok(StepV::Call(get_call(label, before + x + after))),
    }
}

/// Builds a GET request for a path built from one argument.
fn get_with_arg(args: &[String], index: usize, name: &str, label: &str, before: &str, after: &str) -> (r: Result<CliStep, AppError>)
    ensures
        step_is(r, get_with(args_view(args@), index as int, name@, label@, before@, after@)),
{
    let x = match require_arg(args, index, name) {
        Err(e) => { return Err(e); },
        Ok(s) => s,
    };
    let mut path = String::from_str(before);
    path.append(x);
    path.append(after);
    Ok(CliStep::Call(get(label, path)))
}

/// The usage error of the `chain` command.
pub open spec fn chain_usage() -> Seq<char> {
    "chain 命令缺少子命令，可用: info/balance/contract-state/contract-events/contract-field/mine/transfer/contract-call-file/history-block/history-tx"@
}

/// What a `chain` command asks for.
pub open spec fn chain_step(a: Seq<Seq<char>>) -> Result<StepV, Seq<char>> {
    if a.len() < 2 {
        Err(chain_usage())
    } else if a[1] == "info"@ {
        Ok(StepV::Call(get_call("chain_info"@, "/chain/info"@)))
    } else if a[1] == "balance"@ {
        get_with(a, 2, "address"@, "chain_balance"@, "/chain/balance/"@, ""@)
    } else if a[1] == "contract-state"@ {
        get_with(a, 2, "address"@, "chain_contract_state"@, "/chain/contract/"@, "/state"@)
    } else if a[1] == "contract-events"@ {
        get_with(a, 2, "address"@, "chain_contract_events"@, "/chain/contract/"@, "/events"@)
    } else if a[1] == "contract-field"@ {
        match required(a, 2, "address"@) {
            Err(m) => Err(m),
            Ok(address) => match required(a, 3, "field"@) {
                Err(m) => Err(m),
                Ok(field) => Ok(StepV::Call(get_call("chain_contract_field"@, "/chain/contract/"@ + address + "/field/"@ + field))),
            },
        }
    } else if a[1] == "mine"@ {
        match required(a, 2, "miner_address"@) {
            Err(m) => Err(m),
            Ok(miner) => Ok(StepV::Call(post_call("chain_mine"@, "/chain/mine"@,
                BodyV::Fields(seq![("miner_address"@, FieldV::Text(miner))])))),
        }
    } else if a[1] == "transfer"@ {
        transfer_step(a)
    } else if a[1] == "contract-call-file"@ {
        contract_file_step(a)
    } else if a[1] == "history-block"@ {
        get_with(a, 2, "block_hash"@, "chain_history_block"@, "/history/block/"@, ""@)
    } else if a[1] == "history-tx"@ {
        get_with(a, 2, "tx_id"@, "chain_history_tx"@, "/history/tx/"@, ""@)
    } else {
        Err("未知 chain 子命令: "@ + a[1])
    }
}

/// The payload a transfer carries: the eighth argument's bytes, or a fixed tag.
pub open spec fn transfer_payload(a: Seq<Seq<char>>) -> Seq<u8> {
    if a.len() > 7 { vstd::utf8::encode_utf8(a[7]) } else { vstd::utf8::encode_utf8("cli-chain-transfer"@) }
}

/// The `chain transfer` command.
pub open spec fn transfer_step(a: Seq<Seq<char>>) -> Result<StepV, Seq<char>> {
    match required(a, 2, "from"@) {
        Err(m) => Err(m),
        Ok(from) => match required(a, 3, "to"@) {
            Err(m) => Err(m),
            Ok(to) => match u64_arg(a, 4, "amount"@) {
                Err(m) => Err(m),
                Ok(amount) => match required(a, 5, "private_key"@) {
                    Err(m) => Err(m),
                    Ok(sk) => match required(a, 6, "public_key"@) {
                        Err(m) => Err(m),
                        Ok(pk) => Ok(StepV::Transfer { from, to, amount, private_key: sk, public_key: pk, payload: transfer_payload(a) }),
                    },
                },
            },
        },
    }
}

/// The `chain contract-call-file` command.
pub open spec fn contract_file_step(a: Seq<Seq<char>>) -> Result<StepV, Seq<char>> {
    match required(a, 2, "from"@) {
        Err(m) => Err(m),
        Ok(from) => match required(a, 3, "to"@) {
            Err(m) => Err(m),
            Ok(to) => match u64_arg(a, 4, "amount"@) {
                Err(m) => Err(m),
                Ok(amount) => match required(a, 5, "private_key"@) {
                    Err(m) => Err(m),
                    Ok(sk) => match required(a, 6, "public_key"@) {
                        Err(m) => Err(m),
                        Ok(pk) => match required(a, 7, "source_path"@) {
                            Err(m) => Err(m),
                            Ok(path) => match optional_arg(a, 8, "nonce"@, u64::MAX as int, 0) {
                                Err(m) => Err(m),
                                Ok(nonce) => Ok(StepV::ContractCallFile {
                                    from, to, amount, private_key: sk, public_key: pk, source_path: path, nonce: nonce as u64,
                                }),
                            },
                        },
                    },
                },
            },
        },
    }
}

/// Reads the arguments of `chain transfer`.
fn transfer_command(args: &[String]) -> (r: Result<CliStep, AppError>)
    ensures
        step_is(r, transfer_step(args_view(args@))),
{
    let from = match require_arg(args, 2, "from") { Err(e) => { return Err(e); }, Ok(s) => s };
    let to = match require_arg(args, 3, "to") { Err(e) => { return Err(e); }, Ok(s) => s };
    let amount = match parse_u64_arg(args, 4, "amount") { Err(e) => { return Err(e); }, Ok(v) => v };
    let private_key = match require_arg(args, 5, "private_key") { Err(e) => { return Err(e); }, Ok(s) => s };
    let public_key = match require_arg(args, 6, "public_key") { Err(e) => { return Err(e); }, Ok(s) => s };
    let payload = if args.len() > 7 {
        proof { assert(args_view(args@)[7] == args@[7]@); }
        crate::binary::copy_range(args[7].as_str().as_bytes(), 0, args[7].as_str().as_bytes().len())
    } else {
        crate::binary::copy_range("cli-chain-transfer".as_bytes(), 0, "cli-chain-transfer".as_bytes().len())
    };
    assert(payload@ == transfer_payload(args_view(args@)));
    assert(from@ == args_view(args@)[2]);
    assert(amount == u64_arg(args_view(args@), 4, "amount"@)->Ok_0);
    Ok(CliStep::Transfer {
        from: String::from_str(from),
        to: String::from_str(to),
        amount,
        private_key: String::from_str(private_key),
        public_key: String::from_str(public_key),
        payload,
    })
}

/// Reads the arguments of `chain contract-call-file`.
fn contract_file_command(args: &[String]) -> (r: Result<CliStep, AppError>)
    ensures
        step_is(r, contract_file_step(args_view(args@))),
{
    let from = match require_arg(args, 2, "from") { Err(e) => { return Err(e); }, Ok(s) => s };
    let to = match require_arg(args, 3, "to") { Err(e) => { return Err(e); }, Ok(s) => s };
    let amount = match parse_u64_arg(args, 4, "amount") { Err(e) => { return Err(e); }, Ok(v) => v };
    let private_key = match require_arg(args, 5, "private_key") { Err(e) => { return Err(e); }, Ok(s) => s };
    let public_key = match require_arg(args, 6, "public_key") { Err(e) => { return Err(e); }, Ok(s) => s };
    let source_path = match require_arg(args, 7, "source_path") { Err(e) => { return Err(e); }, Ok(s) => s };
    let nonce = match optional_number(args, 8, "nonce", u64::MAX, 0) { Err(e) => { return Err(e); }, Ok(v) => v };
    Ok(CliStep::ContractCallFile {
        from: String::from_str(from),
        to: String::from_str(to),
        amount,
        private_key: String::from_str(private_key),
        public_key: String::from_str(public_key),
        source_path: String::from_str(source_path),
        nonce,
    })
}

/// Reads a `chain` command.
pub fn handle_chain_command(args: &[String]) -> (r: Result<CliStep, AppError>)
    ensures
        step_is(r, chain_step(args_view(args@))),
{
    if args.len() < 2 {
        return Err(AppError::Command(String::from_str(
            "chain 命令缺少子命令，可用: info/balance/contract-state/contract-events/contract-field/mine/transfer/contract-call-file/history-block/history-tx")));
    }
    proof { assert(args_view(args@)[1] == args@[1]@); }
    let sub = args[1].as_str();
    if str_eq(sub, "info") {
        Ok(CliStep::Call(get("chain_info", String::from_str("/chain/info"))))
    } else if str_eq(sub, "balance") {
        get_with_arg(args, 2, "address", "chain_balance", "/chain/balance/", "")
    } else if str_eq(sub, "contract-state") {
        get_with_arg(args, 2, "address", "chain_contract_state", "/chain/contract/", "/state")
    } else if str_eq(sub, "contract-events") {
        get_with_arg(args, 2, "address", "chain_contract_events", "/chain/contract/", "/events")
    } else if str_eq(sub, "contract-field") {
        let address = match require_arg(args, 2, "address") { Err(e) => { return Err(e); }, Ok(s) => s };
        let field = match require_arg(args, 3, "field") { Err(e) => { return Err(e); }, Ok(s) => s };
        let mut path = String::from_str("/chain/contract/");
        path.append(address);
        path.append("/field/");
        path.append(field);
        Ok(CliStep::Call(get("chain_contract_field", path)))
    } else if str_eq(sub, "mine") {
        let miner = match require_arg(args, 2, "miner_address") { Err(e) => { return Err(e); }, Ok(s) => s };
        let mut fields: Vec<(String, FieldValue)> = Vec::new();
        fields.push(text_field("miner_address", miner));
        proof { assert(fields_view(fields@) =~= seq![("miner_address"@, FieldV::Text(miner@))]); }
        Ok(CliStep::Call(post("chain_mine", "/chain/mine", RequestBody::Fields(fields))))
    } else if str_eq(sub, "transfer") {
        transfer_command(args)
    } else if str_eq(sub, "contract-call-file") {
        contract_file_command(args)
    } else if str_eq(sub, "history-block") {
        get_with_arg(args, 2, "block_hash", "chain_history_block", "/history/block/", "")
    } else if str_eq(sub, "history-tx") {
        get_with_arg(args, 2, "tx_id", "chain_history_tx", "/history/tx/", "")
    } else {
        Err(AppError::Command(joined("未知 chain 子命令: ", sub)))
    }
}

/// The peer, address and sequence number every `p2p` message command starts with.
pub open spec fn p2p_head(a: Seq<Seq<char>>) -> Result<(Seq<char>, Seq<char>, u64), Seq<char>> {
    match required(a, 2, "peer_id"@) {
        Err(m) => Err(m),
        Ok(peer) => match required(a, 3, "address"@) {
            Err(m) => Err(m),
            Ok(address) => match u64_arg(a, 4, "sequence"@) {
                Err(m) => Err(m),
                Ok(seq) => Ok((peer, address, seq)),
            },
        },
    }
}

/// A message to post to the peer-to-peer endpoint.
pub open spec fn p2p_post(label: Seq<char>, peer: Seq<char>, address: Seq<char>, sequence: u64, message: NetworkMessageV) -> StepV {
    StepV::Call(post_call(label, "/p2p/message"@, BodyV::P2pMessage { peer_id: peer, address, sequence, message }))
}

/// The usage error of the `p2p` command.
pub open spec fn p2p_usage() -> Seq<char> {
    "p2p 命令缺少子命令，可用: status/peers/register-peer/ping/get-chain-status/chain-status/get-blocks"@
}

/// What a `p2p` command asks for, `difficulty` being the configured one
/// and `now` the time a ping is stamped with.
pub open spec fn p2p_step(a: Seq<Seq<char>>, difficulty: u32, now: i64) -> Result<StepV, Seq<char>> {
    if a.len() < 2 {
        Err(p2p_usage())
    } else if a[1] == "status"@ {
        Ok(StepV::Call(get_call("p2p_status"@, "/p2p/status"@)))
    } else if a[1] == "peers"@ {
        Ok(StepV::Call(get_call("p2p_peers"@, "/p2p/peers"@)))
    } else if a[1] == "register-peer"@ {
        match required(a, 2, "peer_id"@) {
            Err(m) => Err(m),
            Ok(peer) => match required(a, 3, "address"@) {
                Err(m) => Err(m),
                Ok(address) => Ok(StepV::Call(post_call("p2p_register_peer"@, "/p2p/peer/register"@,
                    BodyV::Fields(seq![("peer_id"@, FieldV::Text(peer)), ("address"@, FieldV::Text(address))])))),
            },
        }
    } else if a[1] == "ping"@ {
        match p2p_head(a) {
            Err(m) => Err(m),
            Ok((peer, address, seq)) => match optional_arg(a, 5, "nonce"@, u64::MAX as int, seq as int) {
                Err(m) => Err(m),
                Ok(nonce) => Ok(p2p_post("p2p_ping"@, peer, address, seq, NetworkMessageV::Ping { nonce: nonce as u64, timestamp: now })),
            },
        }
    } else if a[1] == "get-chain-status"@ {
        match p2p_head(a) {
            Err(m) => Err(m),
            Ok((peer, address, seq)) => Ok(p2p_post("p2p_get_chain_status"@, peer, address, seq, NetworkMessageV::GetChainStatus)),
        }
    } else if a[1] == "chain-status"@ {
        match p2p_head(a) {
            Err(m) => Err(m),
            Ok((peer, address, seq)) => match u64_arg(a, 5, "best_height"@) {
                Err(m) => Err(m),
                Ok(height) => match required(a, 6, "best_hash"@) {
                    Err(m) => Err(m),
                    Ok(hash) => match optional_arg(a, 7, "difficulty"@, u32::MAX as int, difficulty as int) {
                        Err(m) => Err(m),
                        Ok(d) => Ok(p2p_post("p2p_chain_status"@, peer, address, seq, NetworkMessageV::ChainStatus(ChainStatusV {
                            chain_id: "rustchain-lab-dev"@,
                            best_height: height,
                            best_hash: hash,
                            difficulty: d as u32,
                            genesis_hash: genesis_spec().hash,
                        }))),
                    },
                },
            },
        }
    } else if a[1] == "get-blocks"@ {
        match p2p_head(a) {
            Err(m) => Err(m),
            Ok((peer, address, seq)) => match u64_arg(a, 5, "from_height"@) {
                Err(m) => Err(m),
                Ok(from) => match optional_arg(a, 6, "limit"@, u32::MAX as int, 128) {
                    Err(m) => Err(m),
                    Ok(limit) => Ok(p2p_post("p2p_get_blocks"@, peer, address, seq,
                        NetworkMessageV::GetBlocks { from_height: from, limit: limit as u32 })),
                },
            },
        }
    } else {
        Err("未知 p2p 子命令: "@ + a[1])
    }
}

/// Reads the peer, address and sequence number of a `p2p` message command.
fn p2p_head_args<'a>(args: &'a [String]) -> (r: Result<(&'a str, &'a str, u64), AppError>)
    ensures
        match p2p_head(args_view(args@)) {
            Ok((p, a, s)) => r is Ok && r->Ok_0.0@ == p && r->Ok_0.1@ == a && r->Ok_0.2 == s,
            Err(m) => r is Err && command_error(r->Err_0, m),
        },
{
    let peer = match require_arg(args, 2, "peer_id") { Err(e) => { return Err(e); }, Ok(s) => s };
    let address = match require_arg(args, 3, "address") { Err(e) => { return Err(e); }, Ok(s) => s };
    let seq = match parse_u64_arg(args, 4, "sequence") { Err(e) => { return Err(e); }, Ok(v) => v };
    Ok((peer, address, seq))
}

/// A message posted to the peer-to-peer endpoint.
fn p2p_message_call(label: &str, peer: &str, address: &str, sequence: u64, message: NetworkMessage) -> (r: CliStep)
    ensures
        r@ == p2p_post(label@, peer@, address@, sequence, message@),
{
    CliStep::Call(post(label, "/p2p/message", RequestBody::P2pMessage {
        peer_id: String::from_str(peer),
        address: String::from_str(address),
        sequence,
        message,
    }))
}

/// Reads a `p2p` command.
pub fn handle_p2p_command(config: &AppConfig, args: &[String], now: i64) -> (r: Result<CliStep, AppError>)
    ensures
        step_is(r, p2p_step(args_view(args@), config.mining_difficulty, now)),
{
    if args.len() < 2 {
        return Err(AppError::Command(String::from_str(
            "p2p 命令缺少子命令，可用: status/peers/register-peer/ping/get-chain-status/chain-status/get-blocks")));
    }
    proof { assert(args_view(args@)[1] == args@[1]@); }
    let sub = args[1].as_str();
    if str_eq(sub, "status") {
        Ok(CliStep::Call(get("p2p_status", String::from_str("/p2p/status"))))
    } else if str_eq(sub, "peers") {
        Ok(CliStep::Call(get("p2p_peers", String::from_str("/p2p/peers"))))
    } else if str_eq(sub, "register-peer") {
        let peer = match require_arg(args, 2, "peer_id") { Err(e) => { return Err(e); }, Ok(s) => s };
        let address = match require_arg(args, 3, "address") { Err(e) => { return Err(e); }, Ok(s) => s };
        let body = two_fields(text_field("peer_id", peer), text_field("address", address));
        Ok(CliStep::Call(post("p2p_register_peer", "/p2p/peer/register", body)))
    } else if str_eq(sub, "ping") {
        let (peer, address, seq) = match p2p_head_args(args) { Err(e) => { return Err(e); }, Ok(h) => h };
        let nonce = match optional_number(args, 5, "nonce", u64::MAX, seq) { Err(e) => { return Err(e); }, Ok(v) => v };
        Ok(p2p_message_call("p2p_ping", peer, address, seq, NetworkMessage::Ping { nonce, timestamp: now }))
    } else if str_eq(sub, "get-chain-status") {
        let (peer, address, seq) = match p2p_head_args(args) { Err(e) => { return Err(e); }, Ok(h) => h };
        Ok(p2p_message_call("p2p_get_chain_status", peer, address, seq, NetworkMessage::GetChainStatus))
    } else if str_eq(sub, "chain-status") {
        let (peer, address, seq) = match p2p_head_args(args) { Err(e) => { return Err(e); }, Ok(h) => h };
        let height = match parse_u64_arg(args, 5, "best_height") { Err(e) => { return Err(e); }, Ok(v) => v };
        let hash = match require_arg(args, 6, "best_hash") { Err(e) => { return Err(e); }, Ok(s) => s };
        let d = match optional_number(args, 7, "difficulty", u32::MAX as u64, config.mining_difficulty as u64) {
            Err(e) => { return Err(e); },
            Ok(v) => v,
        };
        let genesis = Block::genesis();
        let status = ChainStatus {
            chain_id: String::from_str("rustchain-lab-dev"),
            best_height: height,
            best_hash: String::from_str(hash),
            difficulty: d as u32,
            genesis_hash: genesis.hash,
        };
        Ok(p2p_message_call("p2p_chain_status", peer, address, seq, NetworkMessage::ChainStatus(status)))
    } else if str_eq(sub, "get-blocks") {
        let (peer, address, seq) = match p2p_head_args(args) { Err(e) => { return Err(e); }, Ok(h) => h };
        let from = match parse_u64_arg(args, 5, "from_height") { Err(e) => { return Err(e); }, Ok(v) => v };
        let limit = match optional_number(args, 6, "limit", u32::MAX as u64, 128) { Err(e) => { return Err(e); }, Ok(v) => v };
        Ok(p2p_message_call("p2p_get_blocks", peer, address, seq, NetworkMessage::GetBlocks { from_height: from, limit: limit as u32 }))
    } else {
        Err(AppError::Command(joined("未知 p2p 子命令: ", sub)))
    }
}

/// What a `vm` command asks for.
pub open spec fn vm_step(a: Seq<Seq<char>>) -> Result<StepV, Seq<char>> {
    if a.len() < 2 {
        Err("vm 命令缺少子命令，可用: compile-file/execute-file"@)
    } else if a[1] == "compile-file"@ {
        match required(a, 2, "source_path"@) {
            Err(m) => Err(m),
            Ok(path) => Ok(StepV::VmCompileFile { source_path: path }),
        }
    } else if a[1] == "execute-file"@ {
        match required(a, 2, "source_path"@) {
            Err(m) => Err(m),
            Ok(path) => Ok(StepV::VmExecuteFile { source_path: path, max_steps: if a.len() > 3 { Some(a[3]) } else { None } }),
        }
    } else {
        Err("未知 vm 子命令: "@ + a[1])
    }
}

/// Reads a `vm` command.
pub fn handle_vm_command(args: &[String]) -> (r: Result<CliStep, AppError>)
    ensures
        step_is(r, vm_step(args_view(args@))),
{
    if args.len() < 2 {
        return Err(AppError::Command(String::from_str("vm 命令缺少子命令，可用: compile-file/execute-file")));
    }
    proof { assert(args_view(args@)[1] == args@[1]@); }
    let sub = args[1].as_str();
    if str_eq(sub, "compile-file") {
        let path = match require_arg(args, 2, "source_path") { Err(e) => { return Err(e); }, Ok(s) => s };
        Ok(CliStep::VmCompileFile { source_path: String::from_str(path) })
    } else if str_eq(sub, "execute-file") {
        let path = match require_arg(args, 2, "source_path") { Err(e) => { return Err(e); }, Ok(s) => s };
        let max_steps = if args.len() > 3 {
            proof { assert(args_view(args@)[3] == args@[3]@); }
            Some(args[3].clone())
        } else {
            None
        };
        Ok(CliStep::VmExecuteFile { source_path: String::from_str(path), max_steps })
    } else {
        Err(AppError::Command(joined("未知 vm 子命令: ", sub)))
    }
}

/// A lending action: who acts and how much, posted to `path`.
pub open spec fn amount_post(a: Seq<Seq<char>>, who: Seq<char>, label: Seq<char>, path: Seq<char>) -> Result<StepV, Seq<char>> {
    match required(a, 2, who) {
        Err(m) => Err(m),
        Ok(x) => match u64_arg(a, 3, "amount"@) {
            Err(m) => Err(m),
            Ok(n) => Ok(StepV::Call(post_call(label, path, BodyV::Fields(seq![(who, FieldV::Text(x)), ("amount"@, FieldV::Number(n))])))),
        },
    }
}

/// Builds a lending action request.
fn amount_post_args(args: &[String], who: &str, label: &str, path: &str) -> (r: Result<CliStep, AppError>)
    ensures
        step_is(r, amount_post(args_view(args@), who@, label@, path@)),
{
    let x = match require_arg(args, 2, who) { Err(e) => { return Err(e); }, Ok(s) => s };
    let n = match parse_u64_arg(args, 3, "amount") { Err(e) => { return Err(e); }, Ok(v) => v };
    let body = two_fields(text_field(who, x), number_field("amount", n));
    Ok(CliStep::Call(post(label, path, body)))
}

/// What a `defi` command asks for.
pub open spec fn defi_step(a: Seq<Seq<char>>) -> Result<StepV, Seq<char>> {
    if a.len() < 2 {
        Err("defi 命令缺少子命令，可用: deposit/borrow/repay/withdraw/liquidate/position/stats"@)
    } else if a[1] == "deposit"@ {
        amount_post(a, "owner"@, "defi_deposit"@, "/defi/deposit"@)
    } else if a[1] == "borrow"@ {
        amount_post(a, "owner"@, "defi_borrow"@, "/defi/borrow"@)
    } else if a[1] == "repay"@ {
        amount_post(a, "owner"@, "defi_repay"@, "/defi/repay"@)
    } else if a[1] == "withdraw"@ {
        amount_post(a, "owner"@, "defi_withdraw"@, "/defi/withdraw"@)
    } else if a[1] == "liquidate"@ {
        amount_post(a, "borrower"@, "defi_liquidate"@, "/defi/liquidate"@)
    } else if a[1] == "position"@ {
        get_with(a, 2, "owner"@, "defi_position"@, "/defi/position/"@, ""@)
    } else if a[1] == "stats"@ {
        Ok(StepV::Call(get_call("defi_stats"@, "/defi/stats"@)))
    } else {
        Err("未知 defi 子命令: "@ + a[1])
    }
}

/// Reads a `defi` command.
pub fn handle_defi_command(args: &[String]) -> (r: Result<CliStep, AppError>)
    ensures
        step_is(r, defi_step(args_view(args@))),
{
    if args.len() < 2 {
        return Err(AppError::Command(String::from_str(
            "defi 命令缺少子命令，可用: deposit/borrow/repay/withdraw/liquidate/position/stats")));
    }
    proof { assert(args_view(args@)[1] == args@[1]@); }
    let sub = args[1].as_str();
    if str_eq(sub, "deposit") {
        amount_post_args(args, "owner", "defi_deposit", "/defi/deposit")
    } else if str_eq(sub, "borrow") {
        amount_post_args(args, "owner", "defi_borrow", "/defi/borrow")
    } else if str_eq(sub, "repay") {
        amount_post_args(args, "owner", "defi_repay", "/defi/repay")
    } else if str_eq(sub, "withdraw") {
        amount_post_args(args, "owner", "defi_withdraw", "/defi/withdraw")
    } else if str_eq(sub, "liquidate") {
        amount_post_args(args, "borrower", "defi_liquidate", "/defi/liquidate")
    } else if str_eq(sub, "position") {
        get_with_arg(args, 2, "owner", "defi_position", "/defi/position/", "")
    } else if str_eq(sub, "stats") {
        Ok(CliStep::Call(get("defi_stats", String::from_str("/defi/stats"))))
    } else {
        Err(AppError::Command(joined("未知 defi 子命令: ", sub)))
    }
}

/// Two required text arguments posted as fields `n1` and `n2`.
pub open spec fn pair_post(a: Seq<Seq<char>>, n1: Seq<char>, n2: Seq<char>, label: Seq<char>, path: Seq<char>) -> Result<StepV, Seq<char>> {
    match required(a, 2, n1) {
        Err(m) => Err(m),
        Ok(x) => match required(a, 3, n2) {
            Err(m) => Err(m),
            Ok(y) => Ok(StepV::Call(post_call(label, path, BodyV::Fields(seq![(n1, FieldV::Text(x)), (n2, FieldV::Text(y))])))),
        },
    }
}

/// Builds a request of two required text arguments.
fn pair_post_args(args: &[String], n1: &str, n2: &str, label: &str, path: &str) -> (r: Result<CliStep, AppError>)
    ensures
        step_is(r, pair_post(args_view(args@), n1@, n2@, label@, path@)),
{
    let x = match require_arg(args, 2, n1) { Err(e) => { return Err(e); }, Ok(s) => s };
    let y = match require_arg(args, 3, n2) { Err(e) => { return Err(e); }, Ok(s) => s };
    let body = two_fields(text_field(n1, x), text_field(n2, y));
    Ok(CliStep::Call(post(label, path, body)))
}

/// The `nft mint` command.
pub open spec fn mint_step(a: Seq<Seq<char>>) -> Result<StepV, Seq<char>> {
    match required(a, 2, "owner"@) {
        Err(m) => Err(m),
        Ok(owner) => match required(a, 3, "name"@) {
            Err(m) => Err(m),
            Ok(name) => match required(a, 4, "description"@) {
                Err(m) => Err(m),
                Ok(description) => match required(a, 5, "image_url"@) {
                    Err(m) => Err(m),
                    Ok(image) => Ok(StepV::Call(post_call("nft_mint"@, "/nft/mint"@, BodyV::Fields(seq![
                        ("owner"@, FieldV::Text(owner)),
                        ("name"@, FieldV::Text(name)),
                        ("description"@, FieldV::Text(description)),
                        ("image_url"@, FieldV::Text(image)),
                    ])))),
                },
            },
        },
    }
}

/// The `nft list` command.
pub open spec fn list_step(a: Seq<Seq<char>>) -> Result<StepV, Seq<char>> {
    match required(a, 2, "seller"@) {
        Err(m) => Err(m),
        Ok(seller) => match required(a, 3, "token_id"@) {
            Err(m) => Err(m),
            Ok(token) => match u64_arg(a, 4, "price"@) {
                Err(m) => Err(m),
                Ok(price) => Ok(StepV::Call(post_call("nft_list"@, "/nft/list"@, BodyV::Fields(seq![
                    ("seller"@, FieldV::Text(seller)),
                    ("token_id"@, FieldV::Text(token)),
                    ("price"@, FieldV::Number(price)),
                ])))),
            },
        },
    }
}

/// What an `nft` command asks for.
pub open spec fn nft_step(a: Seq<Seq<char>>) -> Result<StepV, Seq<char>> {
    if a.len() < 2 {
        Err("nft 命令缺少子命令，可用: mint/list/cancel/buy/token/listing/active-listings/owner-tokens"@)
    } else if a[1] == "mint"@ {
        mint_step(a)
    } else if a[1] == "list"@ {
        list_step(a)
    } else if a[1] == "cancel"@ {
        pair_post(a, "seller"@, "listing_id"@, "nft_cancel"@, "/nft/cancel"@)
    } else if a[1] == "buy"@ {
        pair_post(a, "buyer"@, "listing_id"@, "nft_buy"@, "/nft/buy"@)
    } else if a[1] == "token"@ {
        get_with(a, 2, "token_id"@, "nft_token"@, "/nft/token/"@, ""@)
    } else if a[1] == "listing"@ {
        get_with(a, 2, "listing_id"@, "nft_listing"@, "/nft/listing/"@, ""@)
    } else if a[1] == "active-listings"@ {
        Ok(StepV::Call(get_call("nft_active_listings"@, "/nft/listings/active"@)))
    } else if a[1] == "owner-tokens"@ {
        get_with(a, 2, "owner"@, "nft_owner_tokens"@, "/nft/owner/"@, "/tokens"@)
    } else {
        Err("未知 nft 子命令: "@ + a[1])
    }
}

/// Reads an `nft` command.
pub fn handle_nft_command(args: &[String]) -> (r: Result<CliStep, AppError>)
    ensures
        step_is(r, nft_step(args_view(args@))),
{
    if args.len() < 2 {
        return Err(AppError::Command(String::from_str(
            "nft 命令缺少子命令，可用: mint/list/cancel/buy/token/listing/active-listings/owner-tokens")));
    }
    proof { assert(args_view(args@)[1] == args@[1]@); }
    let sub = args[1].as_str();
    if str_eq(sub, "mint") {
        let owner = match require_arg(args, 2, "owner") { Err(e) => { return Err(e); }, Ok(s) => s };
        let name = match require_arg(args, 3, "name") { Err(e) => { return Err(e); }, Ok(s) => s };
        let description = match require_arg(args, 4, "description") { Err(e) => { return Err(e); }, Ok(s) => s };
        let image = match require_arg(args, 5, "image_url") { Err(e) => { return Err(e); }, Ok(s) => s };
        let mut fields: Vec<(String, FieldValue)> = Vec::new();
        fields.push(text_field("owner", owner));
        fields.push(text_field("name", name));
        fields.push(text_field("description", description));
        fields.push(text_field("image_url", image));
        proof {
            assert(fields_view(fields@) =~= seq![
                ("owner"@, FieldV::Text(owner@)),
                ("name"@, FieldV::Text(name@)),
                ("description"@, FieldV::Text(description@)),
                ("image_url"@, FieldV::Text(image@)),
            ]);
        }
        Ok(CliStep::Call(post("nft_mint", "/nft/mint", RequestBody::Fields(fields))))
    } else if str_eq(sub, "list") {
        let seller = match require_arg(args, 2, "seller") { Err(e) => { return Err(e); }, Ok(s) => s };
        let token = match require_arg(args, 3, "token_id") { Err(e) => { return Err(e); }, Ok(s) => s };
        let price = match parse_u64_arg(args, 4, "price") { Err(e) => { return Err(e); }, Ok(v) => v };
        let mut fields: Vec<(String, FieldValue)> = Vec::new();
        fields.push(text_field("seller", seller));
        fields.push(text_field("token_id", token));
        fields.push(number_field("price", price));
        proof {
            assert(fields_view(fields@) =~= seq![
                ("seller"@, FieldV::Text(seller@)),
                ("token_id"@, FieldV::Text(token@)),
                ("price"@, FieldV::Number(price)),
            ]);
        }
        Ok(CliStep::Call(post("nft_list", "/nft/list", RequestBody::Fields(fields))))
    } else if str_eq(sub, "cancel") {
        pair_post_args(args, "seller", "listing_id", "nft_cancel", "/nft/cancel")
    } else if str_eq(sub, "buy") {
        pair_post_args(args, "buyer", "listing_id", "nft_buy", "/nft/buy")
    } else if str_eq(sub, "token") {
        get_with_arg(args, 2, "token_id", "nft_token", "/nft/token/", "")
    } else if str_eq(sub, "listing") {
        get_with_arg(args, 2, "listing_id", "nft_listing", "/nft/listing/", "")
    } else if str_eq(sub, "active-listings") {
        Ok(CliStep::Call(get("nft_active_listings", String::from_str("/nft/listings/active"))))
    } else if str_eq(sub, "owner-tokens") {
        get_with_arg(args, 2, "owner", "nft_owner_tokens", "/nft/owner/", "/tokens")
    } else {
        Err(AppError::Command(joined("未知 nft 子命令: ", sub)))
    }
}

/// What a `wallet` command asks for.
pub open spec fn wallet_step(a: Seq<Seq<char>>) -> Result<StepV, Seq<char>> {
    if a.len() < 2 {
        Err("wallet 命令缺少子命令，可用: wallet create <password>"@)
    } else if a[1] == "create"@ {
        if a.len() < 3 { Err("wallet create 需要密码参数"@) } else { Ok(StepV::CreateWallet { password: a[2] }) }
    } else {
        Err("未知 wallet 子命令: "@ + a[1])
    }
}

/// Reads a `wallet` command.
pub fn handle_wallet_command(args: &[String]) -> (r: Result<CliStep, AppError>)
    ensures
        step_is(r, wallet_step(args_view(args@))),
{
    if args.len() < 2 {
        return Err(AppError::Command(String::from_str("wallet 命令缺少子命令，可用: wallet create <password>")));
    }
    proof { assert(args_view(args@)[1] == args@[1]@); }
    let sub = args[1].as_str();
    if str_eq(sub, "create") {
        if args.len() < 3 {
            return Err(AppError::Command(String::from_str("wallet create 需要密码参数")));
        }
        proof { assert(args_view(args@)[2] == args@[2]@); }
        Ok(CliStep::CreateWallet { password: args[2].clone() })
    } else {
        Err(AppError::Command(joined("未知 wallet 子命令: ", sub)))
    }
}

/// What a `tx` command asks for.
pub open spec fn tx_step(a: Seq<Seq<char>>) -> Result<StepV, Seq<char>> {
    if a.len() < 2 {
        Err("tx 命令缺少子命令，可用: tx sign-demo [amount]"@)
    } else if a[1] == "sign-demo"@ {
        match optional_arg(a, 2, "amount"@, u64::MAX as int, 10) {
            Err(m) => Err(m),
            Ok(n) => if n == 0 { Err("amount 必须大于 0"@) } else { Ok(StepV::SignDemo { amount: n as u64 }) },
        }
    } else {
        Err("未知 tx 子命令: "@ + a[1])
    }
}

/// Reads a `tx` command.
pub fn handle_tx_command(args: &[String]) -> (r: Result<CliStep, AppError>)
    ensures
        step_is(r, tx_step(args_view(args@))),
{
    if args.len() < 2 {
        return Err(AppError::Command(String::from_str("tx 命令缺少子命令，可用: tx sign-demo [amount]")));
    }
    proof { assert(args_view(args@)[1] == args@[1]@); }
    let sub = args[1].as_str();
    if str_eq(sub, "sign-demo") {
        let amount = match optional_number(args, 2, "amount", u64::MAX, 10) { Err(e) => { return Err(e); }, Ok(v) => v };
        if amount == 0 {
            return Err(AppError::Command(String::from_str("amount 必须大于 0")));
        }
        Ok(CliStep::SignDemo { amount })
    } else {
        Err(AppError::Command(joined("未知 tx 子命令: ", sub)))
    }
}

/// What a command line asks for, `difficulty` being the configured mining
/// difficulty and `now` the current time.
pub open spec fn command_step(a: Seq<Seq<char>>, difficulty: u32, now: i64) -> Result<StepV, Seq<char>> {
    if a.len() == 0 {
        Ok(StepV::Help)
    } else if a[0] == "wallet"@ {
        wallet_step(a)
    } else if a[0] == "tx"@ {
        tx_step(a)
    } else if a[0] == "chain"@ {
        chain_step(a)
    } else if a[0] == "p2p"@ {
        p2p_step(a, difficulty, now)
    } else if a[0] == "vm"@ {
        vm_step(a)
    } else if a[0] == "defi"@ {
        defi_step(a)
    } else if a[0] == "nft"@ {
        nft_step(a)
    } else if a[0] == "help"@ || a[0] == "--help"@ || a[0] == "-h"@ {
        Ok(StepV::Help)
    } else {
        Err("未知命令: "@ + a[0])
    }
}

/// Reads a command line (the arguments after the program name).
pub fn dispatch_command(config: &AppConfig, args: &[String], now: i64) -> (r: Result<CliStep, AppError>)
    ensures
        step_is(r, command_step(args_view(args@), config.mining_difficulty, now)),
{
    if args.len() == 0 {
        return Ok(CliStep::Help);
    }
    proof { assert(args_view(args@)[0] == args@[0]@); }
    let cmd = args[0].as_str();
    if str_eq(cmd, "wallet") {
        handle_wallet_command(args)
    } else if str_eq(cmd, "tx") {
        handle_tx_command(args)
    } else if str_eq(cmd, "chain") {
        handle_chain_command(args)
    } else if str_eq(cmd, "p2p") {
        handle_p2p_command(config, args, now)
    } else if str_eq(cmd, "vm") {
        handle_vm_command(args)
    } else if str_eq(cmd, "defi") {
        handle_defi_command(args)
    } else if str_eq(cmd, "nft") {
        handle_nft_command(args)
    } else if str_eq(cmd, "help") || str_eq(cmd, "--help") || str_eq(cmd, "-h") {
        Ok(CliStep::Help)
    } else {
        Err(AppError::Command(joined("未知命令: ", cmd)))
    }
}

// ---------------------------------------------------------------- local work

/// The check a contract source read from a file must pass: it is not blank.
pub fn check_contract_source(source: String) -> (r: Result<String, AppError>)
    ensures
        is_blank_seq(source@) ==> r is Err && command_error(r->Err_0, "合约文件内容不能为空"@),
        !is_blank_seq(source@) ==> r == Ok::<String, AppError>(source),
{
    if is_blank(source.as_str()) {
        return Err(AppError::Command(String::from_str("合约文件内容不能为空")));
    }
    Ok(source)
}

/// Whether `t` is a transaction just created with these fields, unsigned,
/// with the id that goes with them (its creation time is the clock's).
pub open spec fn fresh_tx(t: TransactionV, kind: TransactionKind, from: Seq<char>, to: Seq<char>, amount: u64, nonce: u64, payload: Option<Seq<u8>>) -> bool {
    &&& t.kind == kind
    &&& t.from == from
    &&& t.to == to
    &&& t.amount == amount
    &&& t.nonce == nonce
    &&& t.signature is None
    &&& t.payload == payload
    &&& t.id == tx_id_spec(t)
}

/// What signing `t` with the key pair and checking it gives.
pub open spec fn signed_build(t: TransactionV, private_key: Seq<char>, public_key: Seq<char>, r: Result<Transaction, AppError>) -> bool {
    match tx_sign_spec(t, private_key, public_key) {
        Err(e) => r is Err && command_error(r->Err_0, "交易签名失败: "@ + crypto_error_text(e)),
        Ok(sig) => match tx_check(signed_tx(t, sig)) {
            Err(e) => r is Err && command_error(r->Err_0, "交易校验失败: "@ + core_error_text(e)),
            Ok(_) => r is Ok && r->Ok_0@ == signed_tx(t, sig),
        },
    }
}

/// Signs a new transaction with the key pair and checks it.
fn sign_and_check(mut tx: Transaction, private_key: &str, public_key: &str) -> (r: Result<Transaction, AppError>)
    ensures
        signed_build(tx@, private_key@, public_key@, r),
{
    match tx.sign_with_private_key(private_key, public_key) {
        Err(e) => {
            let t = e.message();
            return Err(AppError::Command(joined("交易签名失败: ", t.as_str())));
        },
        Ok(_) => {},
    }
    match tx.validate_basic() {
        Err(e) => {
            let t = e.message();
            return Err(AppError::Command(joined("交易校验失败: ", t.as_str())));
        },
        Ok(_) => {},
    }
    Ok(tx)
}

/// An optional byte payload, viewed.
pub open spec fn payload_view(p: Option<Vec<u8>>) -> Option<Seq<u8>> {
    match p {
        Some(v) => Some(v@),
        None => None,
    }
}

/// Builds and signs a transfer to submit to the chain.
pub fn build_signed_transfer_tx(from: &str, to: &str, amount: u64, private_key: &str, public_key: &str, payload: Option<Vec<u8>>) -> (r: Result<Transaction, AppError>)
    ensures
        amount == 0 ==> r is Err && command_error(r->Err_0, "amount 必须大于 0"@),
        amount > 0 ==> exists|t: TransactionV|
            fresh_tx(t, TransactionKind::Transfer, from@, to@, amount, 0, payload_view(payload))
            && #[trigger] signed_build(t, private_key@, public_key@, r),
{
    if amount == 0 {
        return Err(AppError::Command(String::from_str("amount 必须大于 0")));
    }
    let tx = Transaction::new(from, to, amount, payload);
    let ghost t = tx@;
    let r = sign_and_check(tx, private_key, public_key);
    proof { assert(fresh_tx(t, TransactionKind::Transfer, from@, to@, amount, 0, payload_view(payload))); }
    r
}

/// Builds and signs a contract call carrying `payload` (the contract source).
pub fn build_signed_contract_call_tx(from: &str, to: &str, amount: u64, nonce: u64, private_key: &str, public_key: &str, payload: Vec<u8>) -> (r: Result<Transaction, AppError>)
    ensures
        amount == 0 ==> r is Err && command_error(r->Err_0, "amount 必须大于 0"@),
        amount > 0 && payload@.len() == 0 ==> r is Err && command_error(r->Err_0, "payload 不能为空"@),
        amount > 0 && payload@.len() > 0 ==> exists|t: TransactionV|
            fresh_tx(t, TransactionKind::ContractCall, from@, to@, amount, nonce, Some(payload@))
            && #[trigger] signed_build(t, private_key@, public_key@, r),
{
    if amount == 0 {
        return Err(AppError::Command(String::from_str("amount 必须大于 0")));
    }
    if payload.len() == 0 {
        return Err(AppError::Command(String::from_str("payload 不能为空")));
    }
    let ghost p = payload@;
    let tx = Transaction::new_with_kind(TransactionKind::ContractCall, from, to, amount, nonce, Some(payload));
    let ghost t = tx@;
    let r = sign_and_check(tx, private_key, public_key);
    proof { assert(fresh_tx(t, TransactionKind::ContractCall, from@, to@, amount, nonce, Some(p))); }
    r
}

/// Whether `r` submits the transaction `tx` would give, under `label`.
pub open spec fn submits(label: Seq<char>, tx: Result<Transaction, AppError>, r: Result<ApiCall, AppError>) -> bool {
    match tx {
        Err(e) => r == Err::<ApiCall, AppError>(e),
        Ok(t) => r is Ok && r->Ok_0@ == post_call(label, "/chain/tx"@, BodyV::Transaction(t@)),
    }
}

/// Signs a transfer and builds the request that submits it.
pub fn transfer_call(from: &str, to: &str, amount: u64, private_key: &str, public_key: &str, payload: Vec<u8>) -> (r: Result<ApiCall, AppError>)
    ensures
        amount == 0 ==> r is Err && command_error(r->Err_0, "amount 必须大于 0"@),
        amount > 0 ==> exists|t: TransactionV, built: Result<Transaction, AppError>|
            fresh_tx(t, TransactionKind::Transfer, from@, to@, amount, 0, Some(payload@))
            && #[trigger] signed_build(t, private_key@, public_key@, built)
            && submits("chain_transfer_submit"@, built, r),
{
    let ghost p = payload@;
    let built = build_signed_transfer_tx(from, to, amount, private_key, public_key, Some(payload));
    match built {
        Err(e) => Err(e),
        Ok(tx) => Ok(post("chain_transfer_submit", "/chain/tx", RequestBody::Transaction(tx))),
    }
}

/// Checks a contract source read from a file, signs a call carrying it,
/// and builds the request that submits it.
pub fn contract_call_file_call(from: &str, to: &str, amount: u64, private_key: &str, public_key: &str, nonce: u64, source: String) -> (r: Result<ApiCall, AppError>)
    ensures
        is_blank_seq(source@) ==> r is Err && command_error(r->Err_0, "合约文件内容不能为空"@),
        !is_blank_seq(source@) && amount == 0 ==> r is Err && command_error(r->Err_0, "amount 必须大于 0"@),
        !is_blank_seq(source@) && amount > 0 ==> exists|t: TransactionV, built: Result<Transaction, AppError>|
            fresh_tx(t, TransactionKind::ContractCall, from@, to@, amount, nonce, Some(encode_utf8(source@)))
            && #[trigger] signed_build(t, private_key@, public_key@, built)
            && submits("chain_contract_call_submit"@, built, r),
{
    let source = match check_contract_source(source) {
        Err(e) => { return Err(e); },
        Ok(s) => s,
    };
    let bytes = crate::binary::copy_range(source.as_str().as_bytes(), 0, source.as_str().as_bytes().len());
    proof {
        assert(source@.len() > 0);
        assert(encode_utf8(source@) == vstd::utf8::encode_scalar(source@[0] as u32) + encode_utf8(source@.drop_first()));
        assert(vstd::utf8::encode_scalar(source@[0] as u32).len() > 0);
    }
    assert(bytes@ =~= encode_utf8(source@));
    let built = build_signed_contract_call_tx(from, to, amount, nonce, private_key, public_key, bytes);
    proof {
        if amount > 0 {
            let t = choose|t: TransactionV| fresh_tx(t, TransactionKind::ContractCall, from@, to@, amount, nonce, Some(encode_utf8(source@)))
                && #[trigger] signed_build(t, private_key@, public_key@, built);
            assert(signed_build(t, private_key@, public_key@, built));
        }
    }
    match built {
        Err(e) => Err(e),
        Ok(tx) => Ok(post("chain_contract_call_submit", "/chain/tx", RequestBody::Transaction(tx))),
    }
}

/// The request that has the API compile a contract source read from a file.
pub fn vm_compile_call(source: String) -> (r: Result<ApiCall, AppError>)
    ensures
        is_blank_seq(source@) ==> r is Err && command_error(r->Err_0, "合约文件内容不能为空"@),
        !is_blank_seq(source@) ==> r is Ok && r->Ok_0@ == post_call("vm_compile"@, "/vm/compile"@,
            BodyV::Source { source: source@, max_steps: None }),
{
    let source = match check_contract_source(source) {
        Err(e) => { return Err(e); },
        Ok(s) => s,
    };
    Ok(post("vm_compile", "/vm/compile", RequestBody::Source { source, max_steps: None }))
}

/// What running a contract source read from a file asks for, given the
/// step limit argument when there is one.
pub open spec fn vm_execute_spec(source: Seq<char>, max_steps: Option<Seq<char>>) -> Result<CallV, Seq<char>> {
    if is_blank_seq(source) {
        Err("合约文件内容不能为空"@)
    } else {
        match max_steps {
            None => Ok(post_call("vm_execute"@, "/vm/execute"@, BodyV::Source { source, max_steps: None })),
            Some(raw) => match parse_uint_spec(raw, usize::MAX as int) {
                Err(e) => Err(parse_failure_text("max_steps"@, e)),
                Ok(n) => if n == 0 {
                    Err("max_steps 必须大于 0"@)
                } else {
                    Ok(post_call("vm_execute"@, "/vm/execute"@, BodyV::Source { source, max_steps: Some(n as usize) }))
                },
            },
        }
    }
}

/// The request that has the API run a contract source read from a file.
pub fn vm_execute_call(source: String, max_steps: Option<&str>) -> (r: Result<ApiCall, AppError>)
    ensures
        match vm_execute_spec(source@, match max_steps { Some(m) => Some(m@), None => None }) {
            Ok(c) => r is Ok && r->Ok_0@ == c,
            Err(m) => r is Err && command_error(r->Err_0, m),
        },
{
    let source = match check_contract_source(source) {
        Err(e) => { return Err(e); },
        Ok(s) => s,
    };
    let limit: Option<usize> = match max_steps {
        None => None,
        Some(raw) => {
            proof { lemma_parse_uint_bound(raw@, usize::MAX as int); }
            match parse_uint(raw, usize::MAX as u64) {
                Err(e) => { return Err(parse_failure("max_steps", e)); },
                Ok(n) => {
                    if n == 0 {
                        return Err(AppError::Command(String::from_str("max_steps 必须大于 0")));
                    }
                    Some(n as usize)
                },
            }
        },
    };
    Ok(post("vm_execute", "/vm/execute", RequestBody::Source { source, max_steps: limit }))
}

/// Creates a wallet for the `wallet create` command.
pub fn create_wallet_command(password: &str) -> (r: Result<(Wallet, WalletKeyPair), AppError>)
    ensures
        password@.len() == 0 ==> r is Err && command_error(r->Err_0, "创建钱包失败: "@ + "密码不能为空"@),
        password@.len() > 0 ==> r is Ok && exists|secret: Seq<u8>, salt: Seq<u8>| secret.len() == 32 && salt.len() == 32
            && #[trigger] wallet_spec(password@, secret, salt) == (r->Ok_0.0@, (r->Ok_0.1.address@, r->Ok_0.1.public_key@, r->Ok_0.1.private_key@)),
{
    match create_wallet(password) {
        Err(e) => {
            let t = e.message();
            Err(AppError::Command(joined("创建钱包失败: ", t.as_str())))
        },
        Ok(w) => Ok(w),
    }
}

/// What the demonstration gives for the wallets of keys `s1` (sender) and
/// `s2` (receiver), salts `k1` and `k2`, and the transfer `t` it created.
pub open spec fn demo_outcome(amount: u64, s1: Seq<u8>, k1: Seq<u8>, s2: Seq<u8>, k2: Seq<u8>, t: TransactionV, r: Result<Transaction, AppError>) -> bool {
    let (sender, keys) = wallet_spec("sender-pass"@, s1, k1);
    let (receiver, _) = wallet_spec("receiver-pass"@, s2, k2);
    &&& s1.len() == 32 && k1.len() == 32 && s2.len() == 32 && k2.len() == 32
    &&& fresh_tx(t, TransactionKind::Transfer, sender.address, receiver.address, amount, 0, Some(encode_utf8("cli-sign-demo"@)))
    &&& signed_build(t, keys.2, keys.1, r)
}

/// The demonstration of `tx sign-demo`: two new wallets, a transfer of
/// `amount` between them, signed by the sender and checked.
pub fn run_sign_demo(amount: u64) -> (r: Result<Transaction, AppError>)
    ensures
        exists|s1: Seq<u8>, k1: Seq<u8>, s2: Seq<u8>, k2: Seq<u8>, t: TransactionV|
            #[trigger] demo_outcome(amount, s1, k1, s2, k2, t, r),
{
    proof {
        reveal_strlit("sender-pass");
        reveal_strlit("receiver-pass");
    }
    let (sender, sender_keys) = match create_wallet("sender-pass") {
        Err(e) => { return Err(AppError::Command(e.message())); },
        Ok(w) => w,
    };
    let (receiver, receiver_keys) = match create_wallet("receiver-pass") {
        Err(e) => { return Err(AppError::Command(e.message())); },
        Ok(w) => w,
    };
    let payload = crate::binary::copy_range("cli-sign-demo".as_bytes(), 0, "cli-sign-demo".as_bytes().len());
    assert(payload@ =~= encode_utf8("cli-sign-demo"@));
    let tx = Transaction::new(sender.address.as_str(), receiver.address.as_str(), amount, Some(payload));
    let ghost t = tx@;
    let r = sign_and_check(tx, sender_keys.private_key.as_str(), sender_keys.public_key.as_str());
    proof {
        let (s1, k1) = choose|s: Seq<u8>, k: Seq<u8>| s.len() == 32 && k.len() == 32
            && #[trigger] wallet_spec("sender-pass"@, s, k) == (sender@, (sender_keys.address@, sender_keys.public_key@, sender_keys.private_key@));
        let (s2, k2) = choose|s: Seq<u8>, k: Seq<u8>| s.len() == 32 && k.len() == 32
            && #[trigger] wallet_spec("receiver-pass"@, s, k) == (receiver@, (receiver_keys.address@, receiver_keys.public_key@, receiver_keys.private_key@));
        assert(fresh_tx(t, TransactionKind::Transfer, wallet_spec("sender-pass"@, s1, k1).0.address,
            wallet_spec("receiver-pass"@, s2, k2).0.address, amount, 0, Some(encode_utf8("cli-sign-demo"@))));
        assert(signed_build(t, wallet_spec("sender-pass"@, s1, k1).1.2, wallet_spec("sender-pass"@, s1, k1).1.1, r));
        assert(demo_outcome(amount, s1, k1, s2, k2, t, r));
    }
    r
}

} // verus!
