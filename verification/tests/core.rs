use rustchain::block::Block;
use rustchain::blockchain::Blockchain;
use rustchain::chain_codec::{decode_block, decode_transaction, encode_block, encode_transaction};
use rustchain::chain_error::CoreError;
use rustchain::crypto::{create_wallet, Wallet, WalletKeyPair};
use rustchain::defi_payload::{DefiAction, DefiPayload, DefiPayloadError};
use rustchain::merkle::calculate_merkle_root;
use rustchain::pow::meets_difficulty;
use rustchain::transaction::{Transaction, TransactionKind};

#[test]
fn mined_block_should_pass_integrity_check() {
    let tx = Transaction::new("alice", "bob", 10, None);
    let mut block = Block::new(1, vec![tx], "prev-hash", 1, "miner-1");
    block.mine(1);

    assert!(block.validate_integrity(false).is_ok());
}

#[test]
fn tampered_block_should_fail_integrity_check() {
    let tx = Transaction::new("alice", "bob", 10, None);
    let mut block = Block::new(1, vec![tx], "prev-hash", 1, "miner-1");
    block.mine(1);
    assert!(block.hash.starts_with('0'));
    assert!(meets_difficulty(&block.hash, 1));
    block.transactions[0].amount = 11;
    assert!(block.validate_integrity(false).is_err());
}

#[test]
fn genesis_block_should_be_stable() {
    let a = Block::genesis();
    let b = Block::genesis();
    assert_eq!(a.hash, b.hash);
    assert_eq!(a.index, 0);
    assert_eq!(a.previous_hash, "0");
    assert!(a.transactions.is_empty());
}

#[test]
fn merkle_root_should_hash_pairs_and_duplicate_odd_leaf() {
    let empty = calculate_merkle_root(&[]);
    assert_eq!(empty, rustchain::hash::sha256_hex(b"empty-merkle-root"));
    let one = calculate_merkle_root(&["a".to_string()]);
    assert_eq!(one, "a");
    let three = calculate_merkle_root(&["a".to_string(), "b".to_string(), "c".to_string()]);
    let ab = rustchain::hash::sha256_hex(b"ab");
    let cc = rustchain::hash::sha256_hex(b"cc");
    let expected = rustchain::hash::sha256_hex(format!("{ab}{cc}").as_bytes());
    assert_eq!(three, expected);
}

#[test]
fn meets_difficulty_should_count_leading_zero_chars() {
    assert!(meets_difficulty("00ab", 2));
    assert!(!meets_difficulty("0ab", 2));
    assert!(meets_difficulty("abc", 0));
}

#[test]
fn defi_payload_should_roundtrip() {
    let payload = DefiPayload::new(DefiAction::Borrow, "alice", 120);
    let raw = payload.encode().expect("编码应成功");
    let decoded = DefiPayload::decode(&raw).expect("解码应成功");

    assert_eq!(decoded, payload);
    assert_eq!(decoded.action.as_str(), "borrow");
}

#[test]
fn defi_payload_with_empty_owner_should_fail_validation() {
    let payload = DefiPayload::new(DefiAction::Borrow, "  ", 10);

    assert_eq!(payload.validate(), Err(DefiPayloadError::EmptyOwner));
}

#[test]
fn defi_payload_with_zero_amount_should_fail_validation() {
    let payload = DefiPayload::new(DefiAction::Repay, "alice", 0);

    assert_eq!(payload.validate(), Err(DefiPayloadError::ZeroAmount));
}

#[test]
fn defi_payload_decode_garbage_should_fail() {
    let result = DefiPayload::decode(&[0xFF, 0x00, 0x13, 0x37]);

    assert!(matches!(result, Err(DefiPayloadError::Decode(_))));
}

#[test]
fn defi_payload_bytes_should_match_bincode_layout() {
    let raw = DefiPayload::new(DefiAction::Borrow, "alice", 120).encode().expect("编码应成功");
    assert_eq!(raw, bincode::serialize(&(1u32, "alice".to_string(), 120u64)).expect("bincode 应成功"));
    assert!(DefiPayload::new(DefiAction::Liquidate, "bob", 1).is_self_operated() == false);
    assert!(DefiPayload::new(DefiAction::Repay, "bob", 1).is_self_operated());
}

#[test]
fn new_transaction_should_have_valid_id() {
    let tx = Transaction::new("alice", "bob", 10, Some(vec![1, 2, 3]));

    assert!(!tx.id.is_empty());
    assert_eq!(tx.kind, TransactionKind::Transfer);
    assert_eq!(tx.nonce, 0);
    assert!(tx.validate_basic().is_ok());
}

#[test]
fn transaction_kind_and_nonce_should_affect_transaction_id() {
    let tx1 = Transaction::new_with_kind(
        TransactionKind::ContractCall,
        "alice",
        "contract-1",
        1,
        7,
        Some(vec![0xAA]),
    );
    let tx2 = Transaction::new_with_kind(
        TransactionKind::ContractCall,
        "alice",
        "contract-1",
        1,
        8,
        Some(vec![0xAA]),
    );

    assert_ne!(tx1.id, tx2.id);
}

#[test]
fn signing_payload_should_join_fields_with_bars() {
    let mut tx = Transaction::new_with_kind(TransactionKind::ContractCall, "alice", "bob", 5, 3, Some(vec![0xAB, 0x01]));
    tx.timestamp = 1700;
    assert_eq!(tx.signing_payload(), b"contract_call|alice|bob|5|3|1700|ab01".to_vec());
    let expected = rustchain::hash::sha256_hex(b"contract_call|alice|bob|5|3|1700|ab01");
    assert_eq!(tx.calculate_id(), expected);
}

#[test]
fn transaction_checks_should_report_each_error() {
    let mut tx = Transaction::new("alice", "bob", 0, None);
    assert_eq!(tx.validate_basic(), Err(CoreError::ZeroAmount));
    tx = Transaction::new(" ", "bob", 1, None);
    assert_eq!(tx.validate_basic(), Err(CoreError::MissingSender));
    tx = Transaction::new("alice", "", 1, None);
    assert_eq!(tx.validate_basic(), Err(CoreError::MissingRecipient));
    tx = Transaction::new("alice", "bob", 1, None);
    tx.id = "forged".to_string();
    assert_eq!(tx.validate_basic(), Err(CoreError::InvalidTransactionId("forged".to_string())));
}

#[test]
fn signing_should_store_signature_and_refresh_id() {
    let (wallet, key_pair) = create_wallet("pass").expect("创建钱包应当成功");
    let mut tx = Transaction::new(&wallet.address, "bob", 3, None);
    let unsigned_id = tx.id.clone();
    tx.sign_with_private_key(&key_pair.private_key, &key_pair.public_key).expect("签名应成功");
    assert!(tx.signature.is_some());
    assert_ne!(tx.id, unsigned_id);
    assert!(tx.validate_basic().is_ok());

    let (_, other) = create_wallet("other").expect("创建钱包应当成功");
    let mut tx2 = Transaction::new(&wallet.address, "bob", 3, None);
    assert!(tx2.sign_with_private_key(&key_pair.private_key, &other.public_key).is_err());
    assert!(tx2.signature.is_none());
}

#[test]
fn transaction_and_block_bytes_should_roundtrip() {
    let tx = Transaction::new("alice", "bob", 10, Some(vec![9, 8]));
    let raw = encode_transaction(&tx);
    assert_eq!(decode_transaction(&raw), Some(tx.clone()));
    let mut block = Block::new(1, vec![tx], "prev", 1, "miner");
    block.mine(1);
    let raw_block = encode_block(&block);
    assert_eq!(decode_block(&raw_block), Some(block));
    assert_eq!(decode_transaction(&[1, 2, 3]), None);
}

#[test]
fn transaction_bytes_should_match_bincode_layout() {
    let mut tx = Transaction::new_with_kind(TransactionKind::DefiAction, "a", "b", 7, 2, Some(vec![5]));
    tx.timestamp = -3;
    let expected = bincode::serialize(&(
        tx.id.clone(),
        3u32,
        "a".to_string(),
        "b".to_string(),
        7u64,
        2u64,
        -3i64,
        Option::<String>::None,
        Some(vec![5u8]),
    ))
    .expect("bincode 应成功");
    assert_eq!(encode_transaction(&tx), expected);
}

fn signed_tx(key_pair: &WalletKeyPair, mut tx: Transaction) -> Transaction {
    tx.sign_with_private_key(&key_pair.private_key, &key_pair.public_key)
        .expect("交易签名应当成功");
    tx
}

#[test]
fn mining_reward_should_increase_miner_balance() {
    let mut blockchain = Blockchain::new(1, 50);
    let mined_block = blockchain
        .mine_pending_transactions("miner-1")
        .expect("挖矿应当成功");

    assert_eq!(mined_block.index, 1);
    assert_eq!(blockchain.pending_transactions.len(), 0);
    assert_eq!(blockchain.balances().get("miner-1").copied(), Some(50));
}

#[test]
fn transfer_flow_should_keep_chain_valid() {
    let (alice_wallet, alice_key_pair) = create_wallet("alice-pass").expect("创建钱包应当成功");
    let (bob_wallet, _) = create_wallet("bob-pass").expect("创建钱包应当成功");
    let mut blockchain = Blockchain::new(1, 50);
    blockchain
        .mine_pending_transactions(&alice_wallet.address)
        .expect("第一次挖矿应当成功");

    let tx = signed_tx(&alice_key_pair, Transaction::new(&alice_wallet.address, &bob_wallet.address, 20, None));
    blockchain.add_transaction(tx).expect("交易应当可以入池");
    blockchain
        .mine_pending_transactions("miner-2")
        .expect("第二次挖矿应当成功");

    assert_eq!(
        blockchain.balances().get(&alice_wallet.address).copied(),
        Some(30)
    );
    assert_eq!(
        blockchain.balances().get(&bob_wallet.address).copied(),
        Some(20)
    );
    assert!(blockchain.validate_chain().is_ok());
}

#[test]
fn overspending_transfer_should_be_rejected() {
    let mut blockchain = Blockchain::new(1, 50);
    blockchain.mine_pending_transactions("alice").expect("挖矿应当成功");
    let result = blockchain.add_transaction(Transaction::new("alice", "bob", 51, None));
    assert_eq!(
        result,
        Err(CoreError::InsufficientBalance { address: "alice".to_string(), needed: 51, available: 50 })
    );
    blockchain.add_transaction(Transaction::new("alice", "bob", 30, None)).expect("交易应当可以入池");
    let result = blockchain.add_transaction(Transaction::new("alice", "carol", 30, None));
    assert!(matches!(result, Err(CoreError::InsufficientBalance { .. })));
}

#[test]
fn external_system_transaction_should_be_rejected() {
    let mut blockchain = Blockchain::new(1, 50);
    let tx = Transaction::system("mallory", 999, None);
    let result = blockchain.add_transaction(tx);

    assert_eq!(result, Err(CoreError::ReservedSystemAddress));
}

#[test]
fn candidate_block_with_invalid_difficulty_should_be_rejected() {
    let blockchain = Blockchain::new(2, 50);
    let latest = blockchain.latest_block().expect("应当存在创世区块");
    let mut block = Block::new(1, Vec::new(), &latest.hash, 1, "miner-1");
    block.mine(1);

    let result = blockchain.validate_next_block(&block);
    assert_eq!(
        result,
        Err(CoreError::InvalidBlockDifficulty {
            index: 1,
            expected: 2,
            actual: 1,
        })
    );
}

#[test]
fn transaction_with_valid_contract_payload_should_be_accepted() {
    let (alice_wallet, alice_key_pair) = create_wallet("alice-pass").expect("创建钱包应当成功");
    let (bob_wallet, _) = create_wallet("bob-pass").expect("创建钱包应当成功");
    let mut blockchain = Blockchain::new(1, 50);
    blockchain
        .mine_pending_transactions(&alice_wallet.address)
        .expect("第一次挖矿应当成功");

    let tx = signed_tx(
        &alice_key_pair,
        Transaction::new_with_kind(
            TransactionKind::ContractCall,
            &alice_wallet.address,
            &bob_wallet.address,
            10,
            0,
            Some(b"LOAD_CONST 1\nSTORE x\nHALT\n".to_vec()),
        ),
    );

    let result = blockchain.add_transaction(tx);
    assert!(result.is_ok());
}

#[test]
fn transaction_with_invalid_contract_payload_should_be_rejected() {
    let (alice_wallet, alice_key_pair) = create_wallet("alice-pass").expect("创建钱包应当成功");
    let (bob_wallet, _) = create_wallet("bob-pass").expect("创建钱包应当成功");
    let mut blockchain = Blockchain::new(1, 50);
    blockchain
        .mine_pending_transactions(&alice_wallet.address)
        .expect("第一次挖矿应当成功");

    let tx = signed_tx(
        &alice_key_pair,
        Transaction::new_with_kind(
            TransactionKind::ContractCall,
            &alice_wallet.address,
            &bob_wallet.address,
            10,
            0,
            Some(b"WARP 1\n".to_vec()),
        ),
    );

    let result = blockchain.add_transaction(tx);
    assert!(matches!(
        result,
        Err(CoreError::ContractCompileFailed { .. })
    ));
}

#[test]
fn transaction_with_runtime_error_payload_should_be_rejected() {
    let (alice_wallet, alice_key_pair) = create_wallet("alice-pass").expect("创建钱包应当成功");
    let (bob_wallet, _) = create_wallet("bob-pass").expect("创建钱包应当成功");
    let mut blockchain = Blockchain::new(1, 50);
    blockchain
        .mine_pending_transactions(&alice_wallet.address)
        .expect("第一次挖矿应当成功");

    let tx = signed_tx(
        &alice_key_pair,
        Transaction::new_with_kind(
            TransactionKind::ContractCall,
            &alice_wallet.address,
            &bob_wallet.address,
            10,
            0,
            Some(b"LOAD_CONST 7\nLOAD_CONST 0\nDIV\nHALT\n".to_vec()),
        ),
    );

    let result = blockchain.add_transaction(tx);
    assert!(matches!(
        result,
        Err(CoreError::ContractExecutionFailed { .. })
    ));
}

#[test]
fn contract_state_and_events_should_update_after_mining() {
    let (alice_wallet, alice_key_pair) = create_wallet("alice-pass").expect("创建钱包应当成功");
    let mut blockchain = Blockchain::new(1, 50);
    let contract_address = "contract-counter";
    blockchain
        .mine_pending_transactions(&alice_wallet.address)
        .expect("第一次挖矿应当成功");

    let init_tx = signed_tx(
        &alice_key_pair,
        Transaction::new_with_kind(
            TransactionKind::ContractCall,
            &alice_wallet.address,
            contract_address,
            1,
            1,
            Some(b"LOAD_CONST 1\nSTORE counter\nEMIT \"init\"\nHALT\n".to_vec()),
        ),
    );
    blockchain
        .add_transaction(init_tx)
        .expect("初始化交易应当入池");
    blockchain
        .mine_pending_transactions("miner-2")
        .expect("出块应当成功");

    let inc_tx = signed_tx(
        &alice_key_pair,
        Transaction::new_with_kind(
            TransactionKind::ContractCall,
            &alice_wallet.address,
            contract_address,
            1,
            2,
            Some(b"LOAD counter\nLOAD_CONST 1\nADD\nSTORE counter\nEMIT \"inc\"\nHALT\n".to_vec()),
        ),
    );
    blockchain
        .add_transaction(inc_tx)
        .expect("递增交易应当入池");
    blockchain
        .mine_pending_transactions("miner-3")
        .expect("出块应当成功");

    let state = blockchain
        .contract_state_snapshot(contract_address)
        .expect("应存在合约状态");
    assert_eq!(state.get("counter"), Some(&2));
    assert_eq!(
        blockchain.contract_events_snapshot(contract_address),
        vec!["init".to_string(), "inc".to_string()]
    );
}

#[test]
fn append_external_block_should_work() {
    let mut local_chain = Blockchain::new(1, 50);
    let mut remote_chain = Blockchain::new(1, 50);

    let block = remote_chain
        .mine_pending_transactions("remote-miner")
        .expect("远端出块应成功");
    local_chain
        .append_external_block(block.clone())
        .expect("追加外部区块应成功");

    assert_eq!(local_chain.chain.len(), 2);
    assert_eq!(
        local_chain.latest_block().expect("应存在最新区块").hash,
        block.hash
    );
}

#[test]
fn appending_a_block_twice_should_fail() {
    let mut local_chain = Blockchain::new(1, 50);
    let mut remote_chain = Blockchain::new(1, 50);
    let block = remote_chain.mine_pending_transactions("remote-miner").expect("远端出块应成功");
    local_chain.append_external_block(block.clone()).expect("追加外部区块应成功");
    assert!(local_chain.append_external_block(block).is_err());
    assert_eq!(local_chain.chain.len(), 2);
}

#[test]
fn difficulty_should_increase_on_fast_blocks_at_adjustment_boundary() {
    let mut blockchain = Blockchain::new(1, 50);
    blockchain.target_block_time_secs = 100;
    blockchain.difficulty_adjustment_interval = 2;

    let block1 = blockchain
        .mine_pending_transactions("miner-1")
        .expect("第一块挖矿应成功");
    let block2 = blockchain
        .mine_pending_transactions("miner-2")
        .expect("第二块挖矿应成功");
    let block3 = blockchain
        .mine_pending_transactions("miner-3")
        .expect("第三块挖矿应成功");
    let block4 = blockchain
        .mine_pending_transactions("miner-4")
        .expect("第四块挖矿应成功");

    assert_eq!(block1.difficulty, 1);
    assert_eq!(block2.difficulty, 1);
    assert_eq!(block3.difficulty, 1);
    assert_eq!(block4.difficulty, 2);
    assert_eq!(blockchain.difficulty, 2);
}

#[test]
fn adjust_difficulty_with_elapsed_should_follow_window_rule() {
    assert_eq!(Blockchain::adjust_difficulty_with_elapsed(2, 4, 20), 3);
    assert_eq!(Blockchain::adjust_difficulty_with_elapsed(2, 50, 20), 1);
    assert_eq!(Blockchain::adjust_difficulty_with_elapsed(2, 15, 20), 2);
}

#[test]
fn adjust_difficulty_should_saturate_and_ignore_empty_window() {
    assert_eq!(Blockchain::adjust_difficulty_with_elapsed(1, 100, 20), 0);
    assert_eq!(Blockchain::adjust_difficulty_with_elapsed(0, 100, 20), 0);
    assert_eq!(Blockchain::adjust_difficulty_with_elapsed(u32::MAX, 1, 20), u32::MAX);
    assert_eq!(Blockchain::adjust_difficulty_with_elapsed(7, 1, 0), 7);
    assert_eq!(Blockchain::adjust_difficulty_with_elapsed(2, 0, 1), 3);
}

#[test]
fn difficulty_query_methods_should_work() {
    let mut blockchain = Blockchain::new(2, 50);
    assert_eq!(
        blockchain
            .next_block_expected_difficulty()
            .expect("应可计算下一块难度"),
        2
    );
    assert_eq!(
        blockchain
            .latest_block_difficulty()
            .expect("应可读取最新区块难度"),
        0
    );

    let block = blockchain
        .mine_pending_transactions("miner-q")
        .expect("挖矿应成功");
    assert_eq!(block.difficulty, 2);
    assert_eq!(
        blockchain
            .latest_block_difficulty()
            .expect("应可读取最新区块难度"),
        2
    );
}

fn signed_defi_tx(
    wallet: &Wallet,
    key_pair: &WalletKeyPair,
    action: DefiAction,
    owner: &str,
    amount: u64,
    nonce: u64,
    timestamp: i64,
) -> Transaction {
    let payload = DefiPayload::new(action, owner, amount)
        .encode()
        .expect("载荷编码应成功");
    let mut tx = Transaction::new_with_kind(
        TransactionKind::DefiAction,
        &wallet.address,
        "defi-lending-pool",
        amount,
        nonce,
        Some(payload),
    );
    tx.timestamp = timestamp;
    tx.sign_with_private_key(&key_pair.private_key, &key_pair.public_key)
        .expect("交易签名应当成功");
    tx
}

#[test]
fn defi_deposit_should_apply_only_after_mining() {
    let (wallet, key_pair) = create_wallet("defi-pass").expect("创建钱包应当成功");
    let mut blockchain = Blockchain::new(1, 50);
    blockchain
        .mine_pending_transactions(&wallet.address)
        .expect("首次挖矿应成功");

    let tx = signed_defi_tx(
        &wallet,
        &key_pair,
        DefiAction::DepositCollateral,
        &wallet.address,
        200,
        0,
        0,
    );
    blockchain.add_transaction(tx).expect("抵押交易应入池");

    assert!(blockchain.lending_pool.positions.is_empty());
    assert_eq!(blockchain.lending_pool.total_collateral, 0);

    blockchain
        .mine_pending_transactions("miner-2")
        .expect("出块应成功");

    let position = blockchain
        .lending_pool
        .positions
        .get(&wallet.address)
        .expect("应存在仓位");
    assert_eq!(position.collateral_amount, 200);
    assert_eq!(blockchain.lending_pool.total_collateral, 200);
}

#[test]
fn defi_borrow_after_deposit_should_work() {
    let (wallet, key_pair) = create_wallet("defi-pass").expect("创建钱包应当成功");
    let mut blockchain = Blockchain::new(1, 50);
    blockchain
        .mine_pending_transactions(&wallet.address)
        .expect("首次挖矿应成功");

    let deposit = signed_defi_tx(
        &wallet,
        &key_pair,
        DefiAction::DepositCollateral,
        &wallet.address,
        300,
        0,
        0,
    );
    blockchain.add_transaction(deposit).expect("抵押应入池");
    blockchain
        .mine_pending_transactions("miner-2")
        .expect("出块应成功");

    let borrow = signed_defi_tx(
        &wallet,
        &key_pair,
        DefiAction::Borrow,
        &wallet.address,
        100,
        1,
        1,
    );
    blockchain.add_transaction(borrow).expect("借款应入池");
    blockchain
        .mine_pending_transactions("miner-3")
        .expect("出块应成功");

    let position = blockchain
        .lending_pool
        .positions
        .get(&wallet.address)
        .expect("应存在仓位");
    assert_eq!(position.debt_amount, 100);
    assert_eq!(position.collateral_ratio_bps, 30_000);
}

#[test]
fn defi_over_borrow_should_be_rejected_at_mempool() {
    let (wallet, key_pair) = create_wallet("defi-pass").expect("创建钱包应当成功");
    let mut blockchain = Blockchain::new(1, 50);
    blockchain
        .mine_pending_transactions(&wallet.address)
        .expect("首次挖矿应成功");

    let deposit = signed_defi_tx(
        &wallet,
        &key_pair,
        DefiAction::DepositCollateral,
        &wallet.address,
        100,
        0,
        0,
    );
    blockchain.add_transaction(deposit).expect("抵押应入池");
    blockchain
        .mine_pending_transactions("miner-2")
        .expect("出块应成功");

    let borrow = signed_defi_tx(
        &wallet,
        &key_pair,
        DefiAction::Borrow,
        &wallet.address,
        100,
        1,
        1,
    );
    let result = blockchain.add_transaction(borrow);

    assert!(
        matches!(result, Err(CoreError::DefiExecutionFailed { .. })),
        "超额借款应被拒绝，实际: {result:?}"
    );
    assert_eq!(blockchain.pending_transactions.len(), 0);
}

#[test]
fn defi_action_on_other_owner_should_be_rejected() {
    let (alice_wallet, alice_key) = create_wallet("alice-pass").expect("创建钱包应当成功");
    let (bob_wallet, _) = create_wallet("bob-pass").expect("创建钱包应当成功");
    let mut blockchain = Blockchain::new(1, 50);
    blockchain
        .mine_pending_transactions(&alice_wallet.address)
        .expect("首次挖矿应成功");

    let tx = signed_defi_tx(
        &alice_wallet,
        &alice_key,
        DefiAction::DepositCollateral,
        &bob_wallet.address,
        50,
        0,
        0,
    );
    let result = blockchain.add_transaction(tx);

    assert!(
        matches!(result, Err(CoreError::DefiOwnerMismatch { .. })),
        "代他人操作应被拒绝，实际: {result:?}"
    );
}

#[test]
fn defi_transaction_without_payload_should_be_rejected() {
    let (wallet, key_pair) = create_wallet("defi-pass").expect("创建钱包应当成功");
    let mut blockchain = Blockchain::new(1, 50);
    blockchain
        .mine_pending_transactions(&wallet.address)
        .expect("首次挖矿应成功");

    let mut tx = Transaction::new_with_kind(
        TransactionKind::DefiAction,
        &wallet.address,
        "defi-lending-pool",
        10,
        0,
        None,
    );
    tx.sign_with_private_key(&key_pair.private_key, &key_pair.public_key)
        .expect("交易签名应当成功");

    let result = blockchain.add_transaction(tx);
    assert!(
        matches!(result, Err(CoreError::DefiPayloadInvalid { .. })),
        "缺失载荷应被拒绝，实际: {result:?}"
    );
}

#[test]
fn mined_transactions_should_leave_the_pending_pool() {
    let mut blockchain = Blockchain::new(1, 50);
    blockchain.mine_pending_transactions("alice").expect("挖矿应当成功");
    let tx = Transaction::new("alice", "bob", 5, None);
    let id = tx.id.clone();
    blockchain.add_transaction(tx).expect("交易应当可以入池");
    assert_eq!(blockchain.pending_transactions.len(), 1);
    let block = blockchain.mine_pending_transactions("miner").expect("挖矿应当成功");
    assert!(block.transactions.iter().any(|t| t.id == id));
    assert!(blockchain.pending_transactions.is_empty());
    assert_eq!(blockchain.balances().get("miner").copied(), Some(50));
}

#[test]
fn accepted_blocks_should_keep_chain_valid() {
    let mut local_chain = Blockchain::new(1, 50);
    let mut remote_chain = Blockchain::new(1, 50);
    for round in 0..3 {
        let miner = format!("remote-miner-{round}");
        let block = remote_chain.mine_pending_transactions(&miner).expect("远端出块应成功");
        assert!(remote_chain.validate_chain().is_ok());
        local_chain.append_external_block(block).expect("追加外部区块应成功");
        assert!(local_chain.validate_chain().is_ok());
    }
    remote_chain.add_transaction(Transaction::new("remote-miner-0", "bob", 10, None)).expect("交易应当可以入池");
    let block = remote_chain.mine_pending_transactions("remote-miner-1").expect("远端出块应成功");
    local_chain.append_external_block(block).expect("追加外部区块应成功");
    assert!(local_chain.validate_chain().is_ok());
    assert_eq!(local_chain.balances().get("bob").copied(), Some(10));
}
