use rustchain::blockchain::Blockchain;
use rustchain::chain_codec::{decode_block, encode_block, encode_transaction};
use rustchain::engine::SyncEngine;
use rustchain::message::NetworkMessage;
use rustchain::node::{
    bootstrap_seed_nodes, build_next_get_blocks_request, chain_status_from_blockchain, decode_i64_from_le_bytes,
    map_core_error, parse_seed_node_entry, Node,
};
use rustchain::chain_error::CoreError;
use rustchain::storage::{HistoryStore, InMemoryHistoryStore, InMemoryStateStore, StateStore, StorageError};
use rustchain::transaction::Transaction;

#[derive(Default)]
struct MemHistory {
    blocks: Vec<(String, Vec<u8>)>,
    txs: Vec<(String, Vec<u8>)>,
}

fn find(v: &[(String, Vec<u8>)], k: &str) -> Option<Vec<u8>> {
    v.iter().find(|(key, _)| key == k).map(|(_, val)| val.clone())
}

impl HistoryStore for MemHistory {
    fn get_block(&self, block_hash: &str) -> Result<Option<Vec<u8>>, StorageError> {
        Ok(find(&self.blocks, block_hash))
    }
    fn put_block(&mut self, block_hash: &str, encoded: &[u8]) -> Result<(), StorageError> {
        self.blocks.retain(|(k, _)| k != block_hash);
        self.blocks.push((block_hash.to_string(), encoded.to_vec()));
        Ok(())
    }
    fn delete_block(&mut self, block_hash: &str) -> Result<(), StorageError> {
        self.blocks.retain(|(k, _)| k != block_hash);
        Ok(())
    }
    fn get_transaction(&self, tx_id: &str) -> Result<Option<Vec<u8>>, StorageError> {
        Ok(find(&self.txs, tx_id))
    }
    fn put_transaction(&mut self, tx_id: &str, encoded: &[u8]) -> Result<(), StorageError> {
        self.txs.retain(|(k, _)| k != tx_id);
        self.txs.push((tx_id.to_string(), encoded.to_vec()));
        Ok(())
    }
    fn delete_transaction(&mut self, tx_id: &str) -> Result<(), StorageError> {
        self.txs.retain(|(k, _)| k != tx_id);
        Ok(())
    }
}

fn new_node(local_id: &str) -> Node {
    let chain = Blockchain::new(1, 50);
    let status = chain_status_from_blockchain(&chain);
    Node { chain, engine: SyncEngine::new(local_id, status) }
}

#[test]
fn parse_seed_node_entry_should_support_peer_and_address() {
    let parsed = parse_seed_node_entry("seed-a@/ip4/127.0.0.1/tcp/7001", 0).expect("应解析成功");
    assert_eq!(parsed.0, "seed-a");
    assert_eq!(parsed.1, "/ip4/127.0.0.1/tcp/7001");
}

#[test]
fn parse_seed_node_entry_should_generate_peer_id_for_address_only() {
    let parsed = parse_seed_node_entry("/ip4/127.0.0.1/tcp/7002", 1).expect("应解析成功");
    assert_eq!(parsed.0, "seed-2");
    assert_eq!(parsed.1, "/ip4/127.0.0.1/tcp/7002");
}

#[test]
fn parse_seed_node_entry_should_skip_blank_parts() {
    assert!(parse_seed_node_entry("   ", 0).is_none());
    assert!(parse_seed_node_entry(" @/ip4/1", 0).is_none());
    assert!(parse_seed_node_entry("peer@ ", 0).is_none());
}

#[test]
fn bootstrap_seed_nodes_should_register_to_engine_and_chain() {
    let mut chain = Blockchain::new(2, 50);
    let chain_status = chain_status_from_blockchain(&chain);
    let mut engine = SyncEngine::new("local-node", chain_status);
    let seed_nodes = vec![
        "seed-a@/ip4/127.0.0.1/tcp/7001".to_string(),
        "/ip4/127.0.0.1/tcp/7002".to_string(),
    ];

    let imported = bootstrap_seed_nodes(&mut engine, &mut chain, &seed_nodes);
    assert_eq!(imported, 2);
    assert_eq!(engine.peer_count(), 2);
    assert_eq!(chain.peers.len(), 2);
    assert!(engine.peers().get("seed-a").is_some());
    assert!(engine.peers().get("seed-2").is_some());
}

#[test]
fn chain_status_should_follow_the_tip() {
    let mut chain = Blockchain::new(1, 50);
    let status = chain_status_from_blockchain(&chain);
    assert_eq!(status.best_height, 0);
    assert_eq!(status.chain_id, "rustchain-lab-dev");
    let block = chain.mine_pending_transactions("m").expect("挖矿应成功");
    let status = chain_status_from_blockchain(&chain);
    assert_eq!(status.best_height, 1);
    assert_eq!(status.best_hash, block.hash);
    assert_eq!(status.genesis_hash, chain.chain[0].hash);
}

#[test]
fn decode_i64_should_need_exactly_eight_bytes() {
    assert_eq!(decode_i64_from_le_bytes(&(-5i64).to_le_bytes()), Some(-5));
    assert_eq!(decode_i64_from_le_bytes(&[1, 2, 3]), None);
}

#[test]
fn core_errors_should_map_to_status_codes() {
    assert_eq!(map_core_error(&CoreError::ZeroAmount).status, 400);
    assert_eq!(map_core_error(&CoreError::EmptyChain).status, 500);
}

#[test]
fn submit_and_mine_should_confirm_and_persist() {
    let mut node = new_node("local");
    let mut history = MemHistory::default();
    let mut state = InMemoryStateStore::new();
    let (first, _) = node.mine_block(&mut history, &mut state, "alice").expect("挖矿应成功");
    assert_eq!(first.index, 1);
    assert_eq!(state.get_balance("alice"), Ok(Some(50)));

    let tx = Transaction::new("alice", "bob", 20, None);
    let tx_id = tx.id.clone();
    let (count, outbound) = node.submit_transaction(tx).expect("交易应入池");
    assert_eq!(count, 1);
    assert!(outbound.is_empty());

    let (block, _) = node.mine_block(&mut history, &mut state, "miner").expect("挖矿应成功");
    assert!(history.get_block(&block.hash).expect("读取应成功").is_some());
    assert!(history.get_transaction(&tx_id).expect("读取应成功").is_some());
    assert_eq!(state.get_balance("bob"), Ok(Some(20)));
    assert_eq!(state.get_balance("alice"), Ok(Some(30)));
    assert_eq!(node.engine.local_chain_status().best_height, 2);
}

#[test]
fn mine_with_blank_miner_should_be_rejected() {
    let mut node = new_node("local");
    let mut history = MemHistory::default();
    let mut state = InMemoryStateStore::new();
    let err = node.mine_block(&mut history, &mut state, "  ").expect_err("应失败");
    assert_eq!(err.status, 400);
    assert_eq!(node.chain.chain.len(), 1);
}

#[test]
fn p2p_get_mempool_should_return_pending_transactions() {
    let mut node = new_node("local");
    let mut history = MemHistory::default();
    let mut state = InMemoryStateStore::new();
    node.mine_block(&mut history, &mut state, "alice").expect("挖矿应成功");
    let tx = Transaction::new("alice", "bob", 5, None);
    node.submit_transaction(tx.clone()).expect("交易应入池");

    let report = node
        .handle_p2p_message(&mut history, &mut state, "peer-a", "/ip4/127.0.0.1/tcp/7001", 1, NetworkMessage::GetMempool)
        .expect("处理应成功");
    assert_eq!(report.processed, 1);
    assert_eq!(report.outbound.len(), 1);
    assert_eq!(report.outbound[0].target_peer_id, "peer-a");
    assert_eq!(
        report.outbound[0].message,
        NetworkMessage::Mempool { transactions: vec![encode_transaction(&tx)] }
    );
}

#[test]
fn p2p_new_transaction_should_import_to_mempool() {
    let mut node = new_node("local");
    let mut history = MemHistory::default();
    let mut state = InMemoryStateStore::new();
    node.mine_block(&mut history, &mut state, "alice").expect("挖矿应成功");
    let tx = Transaction::new("alice", "bob", 5, None);
    node.handle_p2p_message(
        &mut history,
        &mut state,
        "peer-a",
        "addr-a",
        1,
        NetworkMessage::NewTransaction { transaction: encode_transaction(&tx) },
    )
    .expect("处理应成功");
    assert_eq!(node.chain.pending_transactions, vec![tx]);
}

#[test]
fn p2p_new_block_should_sync_chain() {
    let mut remote = Blockchain::new(1, 50);
    let block = remote.mine_pending_transactions("remote").expect("远端出块应成功");
    let mut node = new_node("local");
    let mut history = MemHistory::default();
    let mut state = InMemoryStateStore::new();
    node.handle_p2p_message(
        &mut history,
        &mut state,
        "peer-a",
        "addr-a",
        1,
        NetworkMessage::NewBlock { block: encode_block(&block) },
    )
    .expect("处理应成功");
    assert_eq!(node.chain.chain.len(), 2);
    assert_eq!(node.engine.local_chain_status().best_hash, block.hash);
    assert!(history.get_block(&block.hash).expect("读取应成功").is_some());
}

#[test]
fn p2p_get_blocks_should_return_real_blocks() {
    let mut node = new_node("local");
    let mut history = MemHistory::default();
    let mut state = InMemoryStateStore::new();
    node.mine_block(&mut history, &mut state, "m1").expect("挖矿应成功");
    node.mine_block(&mut history, &mut state, "m2").expect("挖矿应成功");
    let report = node
        .handle_p2p_message(&mut history, &mut state, "peer-a", "addr-a", 1, NetworkMessage::GetBlocks { from_height: 1, limit: 10 })
        .expect("处理应成功");
    assert_eq!(report.outbound.len(), 1);
    match &report.outbound[0].message {
        NetworkMessage::Blocks { blocks } => {
            assert_eq!(blocks.len(), 2);
            assert_eq!(decode_block(&blocks[0]).expect("应可解码").index, 1);
            assert_eq!(decode_block(&blocks[1]).expect("应可解码").index, 2);
        }
        other => panic!("unexpected: {other:?}"),
    }
}

#[test]
fn p2p_blocks_should_request_next_batch_when_still_behind() {
    let mut remote = Blockchain::new(1, 50);
    let b1 = remote.mine_pending_transactions("r").expect("远端出块应成功");
    let mut node = new_node("local");
    let mut history = MemHistory::default();
    let mut state = InMemoryStateStore::new();
    let mut status = chain_status_from_blockchain(&remote);
    status.best_height = 5;
    node.handle_p2p_message(&mut history, &mut state, "peer-a", "addr-a", 1, NetworkMessage::ChainStatus(status))
        .expect("处理应成功");
    let report = node
        .handle_p2p_message(
            &mut history,
            &mut state,
            "peer-a",
            "addr-a",
            2,
            NetworkMessage::Blocks { blocks: vec![encode_block(&b1)] },
        )
        .expect("处理应成功");
    assert_eq!(node.chain.chain.len(), 2);
    assert_eq!(
        report.outbound.last().expect("应有出站消息").message,
        NetworkMessage::GetBlocks { from_height: 2, limit: 4 }
    );
    assert_eq!(
        build_next_get_blocks_request(&node.chain, &node.engine, "peer-a"),
        Ok(Some(NetworkMessage::GetBlocks { from_height: 2, limit: 4 }))
    );
    assert_eq!(build_next_get_blocks_request(&node.chain, &node.engine, "nobody"), Ok(None));
}

#[test]
fn p2p_message_with_blank_peer_should_be_rejected() {
    let mut node = new_node("local");
    let mut history = MemHistory::default();
    let mut state = InMemoryStateStore::new();
    let err = node
        .handle_p2p_message(&mut history, &mut state, " ", "addr", 1, NetworkMessage::GetMempool)
        .expect_err("应失败");
    assert_eq!(err.status, 400);
    assert_eq!(err.message, "peer_id 和 address 不能为空");
}

#[test]
fn p2p_invalid_block_bytes_should_fail() {
    let mut node = new_node("local");
    let mut history = MemHistory::default();
    let mut state = InMemoryStateStore::new();
    let err = node
        .handle_p2p_message(&mut history, &mut state, "peer-a", "addr", 1, NetworkMessage::NewBlock { block: vec![1, 2, 3] })
        .expect_err("应失败");
    assert_eq!(err.status, 500);
    assert_eq!(node.chain.chain.len(), 1);
}

#[test]
fn mined_and_synced_blocks_should_be_stored() {
    let mut node = new_node("local-node");
    let mut history = InMemoryHistoryStore::new();
    let mut state = InMemoryStateStore::new();
    let (first, _) = node.mine_block(&mut history, &mut state, "alice").expect("挖矿应成功");
    node.chain.add_transaction(Transaction::new("alice", "bob", 20, None)).expect("交易应当可以入池");
    let (second, _) = node.mine_block(&mut history, &mut state, "miner").expect("挖矿应成功");
    for block in [&first, &second] {
        assert_eq!(history.get_block(&block.hash).unwrap(), Some(encode_block(block)));
        for tx in &block.transactions {
            assert_eq!(history.get_transaction(&tx.id).unwrap(), Some(encode_transaction(tx)));
        }
    }
    assert_eq!(state.get_balance("alice").unwrap(), Some(30));
    assert_eq!(state.get_balance("bob").unwrap(), Some(20));

    let mut peer = new_node("peer-node");
    let mut peer_history = InMemoryHistoryStore::new();
    let mut peer_state = InMemoryStateStore::new();
    peer.accept_synced_block(&mut peer_history, &mut peer_state, first.clone()).expect("同步区块应成功");
    assert_eq!(peer_history.get_block(&first.hash).unwrap(), Some(encode_block(&first)));
    assert_eq!(peer_state.get_balance("alice").unwrap(), Some(50));
}

#[test]
fn transaction_id_should_be_sixty_four_hex_digits() {
    let tx = Transaction::new("alice", "bob", 10, Some(vec![1, 2, 3]));
    assert_eq!(tx.id.len(), 64);
    assert!(tx.id.chars().all(|c| c.is_ascii_hexdigit()));
    assert_eq!(tx.id, tx.calculate_id());
}
