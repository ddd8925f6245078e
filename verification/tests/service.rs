use rustchain::blockchain::Blockchain;
use rustchain::chain_codec::encode_transaction;
use rustchain::codec::FramedMessageCodec;
use rustchain::engine::SyncEngine;
use rustchain::message::NetworkMessage;
use rustchain::nft::{NftError, NftMarketplace};
use rustchain::node::{chain_status_from_blockchain, encode_fields, encode_texts, Node};
use rustchain::keyed::KeyedMap;
use rustchain::service::{
    chain_difficulty, chain_info, check_diagnose_limit, contract_events_answer, contract_field_answer, contract_state_answer,
    decode_events_snapshot, decode_state_snapshot, diagnose_suggestions, dht_buckets_request, history_transaction_answer,
    map_nft_error, metric_values, metrics_error_text, metrics_text, nearest_peers_request, owner_tokens, query_transaction,
    register_peer_request, token_by_id, transport_frame, verify_transaction_request, vm_compile_source, vm_execute_source,
    wallet_create_request, TxSource,
};
use rustchain::storage::{HistoryStore, StorageError};
use rustchain::transaction::Transaction;
use rustchain::transport::TransportSessionPool;

struct OneTx {
    id: String,
    bytes: Vec<u8>,
}

impl HistoryStore for OneTx {
    fn get_block(&self, _block_hash: &str) -> Result<Option<Vec<u8>>, StorageError> {
        Ok(None)
    }
    fn put_block(&mut self, _block_hash: &str, _encoded: &[u8]) -> Result<(), StorageError> {
        Ok(())
    }
    fn delete_block(&mut self, _block_hash: &str) -> Result<(), StorageError> {
        Ok(())
    }
    fn get_transaction(&self, tx_id: &str) -> Result<Option<Vec<u8>>, StorageError> {
        Ok(if tx_id == self.id { Some(self.bytes.clone()) } else { None })
    }
    fn put_transaction(&mut self, _tx_id: &str, _encoded: &[u8]) -> Result<(), StorageError> {
        Ok(())
    }
    fn delete_transaction(&mut self, _tx_id: &str) -> Result<(), StorageError> {
        Ok(())
    }
}

#[test]
fn vm_compile_and_execute_should_work() {
    let source = r#"
        LOAD_CONST 2
        LOAD_CONST 3
        ADD
        STORE total
        EMIT "sum_ready"
        HALT
    "#;
    let program = vm_compile_source(source).expect("编译应成功");
    assert_eq!(program.len(), 6);
    let run = vm_execute_source(source, Some(32)).expect("执行应成功");
    assert_eq!(run.instruction_count, 6);
    assert!(run.report.halted);
    assert_eq!(run.runtime.state().get("total"), Some(&5));
    assert_eq!(run.runtime.events()[0], "sum_ready".to_string());
}

#[test]
fn vm_requests_should_reject_bad_input() {
    let e = vm_compile_source("  ").expect_err("应失败");
    assert_eq!((e.status, e.message.as_str()), (400, "source 不能为空"));
    let e = vm_compile_source("WARP 1").expect_err("应失败");
    assert_eq!(e.status, 400);
    assert!(e.message.contains("WARP"));
    let e = match vm_execute_source("HALT", Some(0)) { Err(e) => e, Ok(_) => panic!("应失败") };
    assert_eq!(e.message, "max_steps 必须大于 0");
    let e = match vm_execute_source("JUMP 0", Some(5)) { Err(e) => e, Ok(_) => panic!("应失败") };
    assert_eq!(e.status, 400);
    assert!(e.message.contains("5"));
}

#[test]
fn chain_summaries_should_follow_the_chain() {
    let mut chain = Blockchain::new(2, 50);
    chain.mine_pending_transactions("m").expect("挖矿应成功");
    let info = chain_info(&chain).expect("应成功");
    assert_eq!(info.height, 1);
    assert_eq!(info.latest_block_difficulty, 2);
    assert_eq!(info.next_block_expected_difficulty, info.difficulty);
    assert_eq!(info.pending_tx_count, 0);
    let d = chain_difficulty(&chain).expect("应成功");
    assert_eq!(d.height, 1);
    assert_eq!(d.target_block_time_secs, chain.target_block_time_secs);
}

#[test]
fn chain_tx_query_should_return_pending_first() {
    let mut chain = Blockchain::new(1, 50);
    chain.mine_pending_transactions("alice").expect("挖矿应成功");
    let tx = Transaction::new("alice", "bob", 5, None);
    chain.add_transaction(tx.clone()).expect("入池应成功");
    let history = OneTx { id: tx.id.clone(), bytes: vec![1, 2, 3] };
    let (source, found) = query_transaction(&chain, &history, &tx.id).expect("应找到");
    assert_eq!(source, TxSource::Pending);
    assert_eq!(found, tx);
}

#[test]
fn chain_tx_query_should_fallback_to_history() {
    let chain = Blockchain::new(1, 50);
    let tx = Transaction::new("alice", "bob", 5, None);
    let history = OneTx { id: tx.id.clone(), bytes: encode_transaction(&tx) };
    let (source, found) = query_transaction(&chain, &history, &tx.id).expect("应找到");
    assert_eq!(source, TxSource::History);
    assert_eq!(found, tx);
    let e = query_transaction(&chain, &history, "nope").expect_err("应失败");
    assert_eq!((e.status, e.message.as_str()), (404, "交易不存在: nope"));
    let e = query_transaction(&chain, &history, " ").expect_err("应失败");
    assert_eq!(e.status, 400);
}

#[test]
fn history_answers_should_map_store_results() {
    let e = history_transaction_answer("t", Err(StorageError::LevelDb("io".to_string()))).expect_err("应失败");
    assert_eq!((e.status, e.message.as_str()), (500, "LevelDB 操作失败: io"));
    let e = history_transaction_answer("t", Ok(Some(vec![0xff]))).expect_err("应失败");
    assert_eq!(e.status, 500);
}

#[test]
fn stored_snapshots_should_read_back() {
    let mut fields: KeyedMap<i64> = KeyedMap::new();
    fields.insert("counter".to_string(), -7);
    fields.insert("flag".to_string(), 1);
    let bytes = encode_fields(&fields);
    let decoded = decode_state_snapshot(&bytes).expect("应可解码");
    assert_eq!(decoded.get("counter"), Some(&-7));
    assert_eq!(decoded.get("flag"), Some(&1));
    assert_eq!(decoded.len(), 2);
    let texts = vec!["init".to_string(), "inc".to_string()];
    assert_eq!(decode_events_snapshot(&encode_texts(&texts)), Some(texts));
    assert!(decode_state_snapshot(&[1, 0, 0]).is_none());
}

#[test]
fn snapshot_bytes_should_match_bincode_layout() {
    let mut fields: KeyedMap<i64> = KeyedMap::new();
    fields.insert("x".to_string(), 42);
    let expected = bincode::serialize(&vec![("x".to_string(), 42i64)]).expect("bincode 应成功");
    assert_eq!(encode_fields(&fields), expected);
    let texts = vec!["a".to_string(), "bc".to_string()];
    assert_eq!(encode_texts(&texts), bincode::serialize(&texts).expect("bincode 应成功"));
}

#[test]
fn contract_answers_should_fall_back_to_the_chain() {
    let chain = Blockchain::new(1, 50);
    let state = contract_state_answer(&chain, "c", Ok(None)).expect("应成功");
    assert!(state.is_empty());
    let events = contract_events_answer(&chain, "c", Ok(None)).expect("应成功");
    assert!(events.is_empty());
    let e = contract_field_answer(&chain, "c", "f", Ok(None)).expect_err("应失败");
    assert_eq!((e.status, e.message.as_str()), (404, "合约字段不存在: address=c, field=f"));
    let (raw, value) = contract_field_answer(&chain, "c", "f", Ok(Some(5i64.to_le_bytes().to_vec()))).expect("应成功");
    assert_eq!(raw, 5i64.to_le_bytes().to_vec());
    assert_eq!(value, Some(5));
}

#[test]
fn nft_queries_should_map_missing_items_to_not_found() {
    let mut market = NftMarketplace::new();
    let token = market.mint("alice", "A", "", "u").expect("铸造应成功");
    assert_eq!(token_by_id(&market, &token.token_id).expect("应存在"), token);
    let e = token_by_id(&market, "nft-9").expect_err("应失败");
    assert_eq!((e.status, e.message.as_str()), (404, "NFT 不存在: token_id=nft-9"));
    assert_eq!(owner_tokens(&market, "alice").expect("应成功"), vec![token]);
    assert!(owner_tokens(&market, "bob").expect("应成功").is_empty());
    assert_eq!(owner_tokens(&market, " ").expect_err("应失败").status, 400);
    assert_eq!(map_nft_error(&NftError::InvalidPrice).status, 400);
    assert_eq!(map_nft_error(&NftError::ListingNotFound { listing_id: "l".to_string() }).status, 404);
    let listing = market.list("alice", "nft-1", 3).expect("挂单应成功");
    assert_eq!(market.active_listings(), vec![listing.clone()]);
    market.cancel_listing("alice", &listing.listing_id).expect("取消应成功");
    assert!(market.active_listings().is_empty());
}

#[test]
fn diagnosis_should_give_advice_from_counts() {
    assert_eq!(check_diagnose_limit(None).expect("应成功"), 8);
    assert!(check_diagnose_limit(Some(65)).is_err());
    let advice = diagnose_suggestions(0, 0, 0, 0, 0);
    assert_eq!(advice.len(), 2);
    assert_eq!(advice[0], "当前没有已知节点，请先 register-peer 或配置 seed_nodes");
    let advice = diagnose_suggestions(3, 0, 3, 2, 1);
    assert_eq!(
        advice,
        vec![
            "建议先发送 bootstrap 握手，共 3 条待发送消息".to_string(),
            "建议随后发送 discover 请求，共 2 条待发送消息".to_string(),
            "当前已知节点均未连接，可先执行 bootstrap 建立握手".to_string(),
        ]
    );
}

#[test]
fn metrics_should_render_prometheus_text() {
    let mut chain = Blockchain::new(1, 50);
    chain.mine_pending_transactions("m").expect("挖矿应成功");
    let values = metric_values(&chain).expect("应成功");
    let text = metrics_text("0.1.0", &values);
    assert!(text.starts_with("# HELP rustchain_up Whether rustchain api process is up.\n# TYPE rustchain_up gauge\nrustchain_up 1\n"));
    assert!(text.contains("rustchain_build_info{version=\"0.1.0\"} 1\n"));
    assert!(text.contains("rustchain_chain_info{chain_id=\"rustchain-lab-dev\"} 1\n"));
    assert!(text.contains("rustchain_chain_height 1\n"));
    assert!(text.ends_with("rustchain_latest_block_difficulty 1\n"));
    assert_eq!(metrics_error_text("x"), "# metrics_error\nrustchain_metrics_error{reason=\"x\"} 1\n");
}

#[test]
fn register_peer_should_update_engine_and_chain() {
    let chain = Blockchain::new(1, 50);
    let status = chain_status_from_blockchain(&chain);
    let mut node = Node { chain, engine: SyncEngine::new("local", status) };
    let count = register_peer_request(&mut node, " peer-a ", " /ip4/1 ").expect("应成功");
    assert_eq!(count, 1);
    assert!(node.engine.peers().get("peer-a").is_some());
    assert_eq!(node.chain.peers, vec!["/ip4/1".to_string()]);
    assert_eq!(register_peer_request(&mut node, "", "x").expect_err("应失败").status, 400);
}

#[test]
fn transport_frame_should_process_and_frame_replies() {
    let chain = Blockchain::new(1, 50);
    let mut engine = SyncEngine::new("local", chain_status_from_blockchain(&chain));
    let mut pool = TransportSessionPool::new();
    let frame = FramedMessageCodec::encode_frame(&NetworkMessage::Ping { nonce: 1, timestamp: 2 }).expect("帧编码应成功");
    let out = transport_frame(&mut engine, &mut pool, "peer-a", "addr", &frame).expect("应成功");
    assert_eq!(out.bytes_received, frame.len());
    assert_eq!(out.report.processed, 1);
    assert_eq!(out.frames.len(), 1);
    let decoded = FramedMessageCodec::decode_frame(&out.frames[0].bytes).expect("应成功").expect("应完整");
    assert_eq!(decoded.message, NetworkMessage::Pong { nonce: 1, timestamp: 2 });
    match transport_frame(&mut engine, &mut pool, "peer-a", "addr", &[]) {
        Err(e) => assert_eq!(e.message, "bytes 不能为空"),
        Ok(_) => panic!("应失败"),
    }
}

#[test]
fn peer_queries_should_check_their_arguments() {
    let chain = Blockchain::new(1, 50);
    let mut engine = SyncEngine::new("local", chain_status_from_blockchain(&chain));
    engine.register_peer("a", "x");
    engine.register_peer("b", "y");
    assert_eq!(nearest_peers_request(&engine, " t ", Some(1)).expect("应成功").len(), 1);
    assert_eq!(nearest_peers_request(&engine, "t", Some(0)).expect_err("应失败").status, 400);
    assert_eq!(nearest_peers_request(&engine, "  ", None).expect_err("应失败").message, "target_peer_id 不能为空");
    assert!(!dht_buckets_request(&engine, "t", None).expect("应成功").is_empty());
    assert_eq!(dht_buckets_request(&engine, "t", Some(0)).expect_err("应失败").message, "bucket_count 必须大于 0");
}

#[test]
fn wallet_and_verify_requests_should_check_input() {
    assert_eq!(wallet_create_request("").expect_err("应失败").message, "password 不能为空");
    let (wallet, keys) = wallet_create_request("pw").expect("应成功");
    assert_eq!(wallet.address, keys.address);
    let tx = Transaction::new("alice", "bob", 1, None);
    assert!(verify_transaction_request(&tx).is_ok());
    let bad = Transaction::new("alice", "bob", 0, None);
    assert_eq!(verify_transaction_request(&bad).expect_err("应失败").status, 400);
}
