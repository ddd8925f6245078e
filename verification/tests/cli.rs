use rustchain::cli::{
    api_base_url, build_signed_contract_call_tx, build_signed_transfer_tx, check_contract_source, dispatch_command,
    parse_u64_arg, require_arg, run_sign_demo, transfer_call, vm_compile_call, vm_execute_call, ApiCall, CliStep, FieldValue,
    HttpMethod, RequestBody,
};
use rustchain::config::{AppConfig, AppError};
use rustchain::crypto::create_wallet;
use rustchain::message::NetworkMessage;
use rustchain::transaction::TransactionKind;

fn config() -> AppConfig {
    AppConfig {
        app_name: "rustchain-cli".to_string(),
        log_level: "info".to_string(),
        api_host: "127.0.0.1".to_string(),
        api_port: 8088,
        p2p_bind_addr: "0.0.0.0:7000".to_string(),
        seed_nodes: Vec::new(),
        data_dir: "./data".to_string(),
        mining_difficulty: 2,
        mining_reward: 50,
    }
}

fn args(v: &[&str]) -> Vec<String> {
    v.iter().map(|s| s.to_string()).collect()
}

#[test]
fn api_base_url_should_be_http_host_port() {
    let config = AppConfig {
        app_name: "rustchain-cli".to_string(),
        log_level: "info".to_string(),
        api_host: "127.0.0.1".to_string(),
        api_port: 8088,
        p2p_bind_addr: "0.0.0.0:7000".to_string(),
        seed_nodes: Vec::new(),
        data_dir: "./data".to_string(),
        mining_difficulty: 2,
        mining_reward: 50,
    };

    assert_eq!(api_base_url(&config), "http://127.0.0.1:8088");
}

#[test]
fn build_signed_transfer_tx_should_work() {
    let (sender_wallet, sender_key_pair) =
        create_wallet("sender-pass").expect("钱包创建应成功");
    let (receiver_wallet, _) = create_wallet("receiver-pass").expect("钱包创建应成功");

    let tx = build_signed_transfer_tx(
        &sender_wallet.address,
        &receiver_wallet.address,
        10,
        &sender_key_pair.private_key,
        &sender_key_pair.public_key,
        Some(b"unit-test".to_vec()),
    )
    .expect("交易构造应成功");

    assert_eq!(tx.from, sender_wallet.address);
    assert_eq!(tx.to, receiver_wallet.address);
    assert_eq!(tx.amount, 10);
    assert!(tx.signature.is_some());
}

#[test]
fn build_signed_transfer_tx_with_zero_amount_should_fail() {
    let (sender_wallet, sender_key_pair) =
        create_wallet("sender-pass").expect("钱包创建应成功");
    let (receiver_wallet, _) = create_wallet("receiver-pass").expect("钱包创建应成功");

    let result = build_signed_transfer_tx(
        &sender_wallet.address,
        &receiver_wallet.address,
        0,
        &sender_key_pair.private_key,
        &sender_key_pair.public_key,
        None,
    );

    assert!(result.is_err());
}

#[test]
fn build_signed_contract_call_tx_should_work() {
    let (sender_wallet, sender_key_pair) =
        create_wallet("sender-pass").expect("钱包创建应成功");

    let tx = build_signed_contract_call_tx(
        &sender_wallet.address,
        "contract-demo",
        1,
        9,
        &sender_key_pair.private_key,
        &sender_key_pair.public_key,
        b"LOAD_CONST 1\nHALT\n".to_vec(),
    )
    .expect("合约调用交易构造应成功");

    assert_eq!(tx.kind, TransactionKind::ContractCall);
    assert_eq!(tx.nonce, 9);
    assert!(tx.signature.is_some());
}

#[test]
fn require_arg_should_read_history_query_identifiers() {
    let args = vec![
        "chain".to_string(),
        "history-block".to_string(),
        "block-hash-001".to_string(),
    ];

    let block_hash = require_arg(&args, 2, "block_hash").expect("应读取 block_hash");
    assert_eq!(block_hash, "block-hash-001");
}

#[test]
fn missing_or_blank_arguments_should_be_reported_by_name() {
    let a = args(&["chain", "balance", "  "]);
    assert_eq!(require_arg(&a, 2, "address"), Err(AppError::Command("缺少参数: address".to_string())));
    assert_eq!(require_arg(&a, 5, "x"), Err(AppError::Command("缺少参数: x".to_string())));
    let b = args(&["defi", "deposit", "alice", "12x"]);
    assert_eq!(
        parse_u64_arg(&b, 3, "amount"),
        Err(AppError::Command("amount 参数解析失败: invalid digit found in string".to_string()))
    );
    let c = args(&["defi", "deposit", "alice", "12"]);
    assert_eq!(parse_u64_arg(&c, 3, "amount"), Ok(12));
}

#[test]
fn commands_should_become_api_requests() {
    let step = dispatch_command(&config(), &args(&["chain", "contract-field", "c1", "counter"]), 0).expect("应成功");
    assert_eq!(
        step,
        CliStep::Call(ApiCall {
            label: "chain_contract_field".to_string(),
            method: HttpMethod::Get,
            path: "/chain/contract/c1/field/counter".to_string(),
            body: RequestBody::Empty,
        })
    );
    let step = dispatch_command(&config(), &args(&["defi", "liquidate", "bob", "80"]), 0).expect("应成功");
    assert_eq!(
        step,
        CliStep::Call(ApiCall {
            label: "defi_liquidate".to_string(),
            method: HttpMethod::Post,
            path: "/defi/liquidate".to_string(),
            body: RequestBody::Fields(vec![
                ("borrower".to_string(), FieldValue::Text("bob".to_string())),
                ("amount".to_string(), FieldValue::Number(80)),
            ]),
        })
    );
    let step = dispatch_command(&config(), &args(&["nft", "owner-tokens", "alice"]), 0).expect("应成功");
    match step {
        CliStep::Call(call) => assert_eq!(call.path, "/nft/owner/alice/tokens"),
        other => panic!("unexpected: {other:?}"),
    }
}

#[test]
fn p2p_commands_should_build_messages_with_defaults() {
    let step = dispatch_command(&config(), &args(&["p2p", "ping", "peer-a", "addr", "3"]), 1234).expect("应成功");
    match step {
        CliStep::Call(ApiCall { body: RequestBody::P2pMessage { peer_id, sequence, message, .. }, path, .. }) => {
            assert_eq!(path, "/p2p/message");
            assert_eq!(peer_id, "peer-a");
            assert_eq!(sequence, 3);
            assert_eq!(message, NetworkMessage::Ping { nonce: 3, timestamp: 1234 });
        }
        other => panic!("unexpected: {other:?}"),
    }
    let step = dispatch_command(&config(), &args(&["p2p", "get-blocks", "peer-a", "addr", "3", "7"]), 0).expect("应成功");
    match step {
        CliStep::Call(ApiCall { body: RequestBody::P2pMessage { message, .. }, .. }) => {
            assert_eq!(message, NetworkMessage::GetBlocks { from_height: 7, limit: 128 });
        }
        other => panic!("unexpected: {other:?}"),
    }
    let step = dispatch_command(&config(), &args(&["p2p", "chain-status", "p", "a", "1", "9", "0xabc"]), 0).expect("应成功");
    match step {
        CliStep::Call(ApiCall { body: RequestBody::P2pMessage { message: NetworkMessage::ChainStatus(s), .. }, .. }) => {
            assert_eq!(s.difficulty, 2);
            assert_eq!(s.best_height, 9);
            assert_eq!(s.chain_id, "rustchain-lab-dev");
            assert_eq!(s.genesis_hash, rustchain::block::Block::genesis().hash);
        }
        other => panic!("unexpected: {other:?}"),
    }
}

#[test]
fn unknown_and_incomplete_commands_should_fail() {
    assert_eq!(dispatch_command(&config(), &args(&[]), 0), Ok(CliStep::Help));
    assert_eq!(dispatch_command(&config(), &args(&["-h"]), 0), Ok(CliStep::Help));
    assert_eq!(
        dispatch_command(&config(), &args(&["fly"]), 0),
        Err(AppError::Command("未知命令: fly".to_string()))
    );
    assert_eq!(
        dispatch_command(&config(), &args(&["vm", "run"]), 0),
        Err(AppError::Command("未知 vm 子命令: run".to_string()))
    );
    assert!(matches!(dispatch_command(&config(), &args(&["nft"]), 0), Err(AppError::Command(_))));
    assert_eq!(
        dispatch_command(&config(), &args(&["tx", "sign-demo", "0"]), 0),
        Err(AppError::Command("amount 必须大于 0".to_string()))
    );
    assert_eq!(dispatch_command(&config(), &args(&["tx", "sign-demo"]), 0), Ok(CliStep::SignDemo { amount: 10 }));
}

#[test]
fn transfer_command_should_default_its_payload() {
    let step = dispatch_command(&config(), &args(&["chain", "transfer", "a", "b", "5", "sk", "pk"]), 0).expect("应成功");
    match step {
        CliStep::Transfer { payload, amount, .. } => {
            assert_eq!(payload, b"cli-chain-transfer".to_vec());
            assert_eq!(amount, 5);
        }
        other => panic!("unexpected: {other:?}"),
    }
}

#[test]
fn file_commands_should_check_their_source() {
    assert_eq!(
        check_contract_source("  \n".to_string()),
        Err(AppError::Command("合约文件内容不能为空".to_string()))
    );
    assert_eq!(check_contract_source("HALT".to_string()), Ok("HALT".to_string()));
    let call = vm_compile_call("HALT".to_string()).expect("应成功");
    assert_eq!(call.path, "/vm/compile");
    assert_eq!(
        vm_execute_call("HALT".to_string(), Some("0")),
        Err(AppError::Command("max_steps 必须大于 0".to_string()))
    );
    let call = vm_execute_call("HALT".to_string(), Some("5")).expect("应成功");
    assert_eq!(call.body, RequestBody::Source { source: "HALT".to_string(), max_steps: Some(5) });
}

#[test]
fn signed_transfer_request_should_carry_the_transaction() {
    let (wallet, keys) = create_wallet("pw").expect("钱包创建应成功");
    let call = transfer_call(&wallet.address, "bob", 4, &keys.private_key, &keys.public_key, b"memo".to_vec()).expect("应成功");
    assert_eq!(call.path, "/chain/tx");
    match call.body {
        RequestBody::Transaction(tx) => {
            assert_eq!(tx.payload, Some(b"memo".to_vec()));
            assert!(tx.validate_basic().is_ok());
        }
        other => panic!("unexpected: {other:?}"),
    }
    let bad = transfer_call(&wallet.address, "bob", 4, "zz", &keys.public_key, Vec::new());
    assert!(matches!(bad, Err(AppError::Command(m)) if m.starts_with("交易签名失败: ")));
}

#[test]
fn sign_demo_should_produce_a_valid_signed_transfer() {
    let tx = run_sign_demo(10).expect("应成功");
    assert_eq!(tx.amount, 10);
    assert_eq!(tx.payload, Some(b"cli-sign-demo".to_vec()));
    assert!(tx.signature.is_some());
    assert!(tx.validate_basic().is_ok());
}
