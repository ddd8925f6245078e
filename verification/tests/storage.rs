use rustchain::blockchain::Blockchain;
use rustchain::chain_codec::{encode_block, encode_transaction};
use rustchain::keyed::KeyedMap;
use rustchain::node::{encode_fields, encode_texts, persist_mined_block, persist_runtime_state};
use rustchain::storage::{
    balance_key, block_key, contract_key, state_contract_key, tx_key, HistoryStore, InMemoryHistoryStore, InMemoryStateStore,
    StateStore, StorageError,
};

#[test]
fn in_memory_account_balance_roundtrip_should_work() {
    let mut store = InMemoryStateStore::new();

    store
        .set_balance("alice", 88)
        .expect("写入余额应当成功");
    let balance = store.get_balance("alice").expect("读取余额应当成功");

    assert_eq!(balance, Some(88));
}

#[test]
fn in_memory_contract_state_roundtrip_should_work() {
    let mut store = InMemoryStateStore::new();

    store
        .set_contract_state("loan-v1", "interest_bps", b"350")
        .expect("写入合约状态应当成功");
    let value = store
        .get_contract_state("loan-v1", "interest_bps")
        .expect("读取合约状态应当成功");
    assert_eq!(value, Some(b"350".to_vec()));

    store
        .delete_contract_state("loan-v1", "interest_bps")
        .expect("删除合约状态应当成功");
    let deleted = store
        .get_contract_state("loan-v1", "interest_bps")
        .expect("读取合约状态应当成功");
    assert_eq!(deleted, None);
}

#[test]
fn overwriting_and_deleting_accounts_should_work() {
    let mut store = InMemoryStateStore::default();
    store.set_balance("alice", 1).expect("写入余额应当成功");
    store.set_balance("alice", 2).expect("写入余额应当成功");
    assert_eq!(store.get_balance("alice"), Ok(Some(2)));
    store.delete_account("alice").expect("删除账户应当成功");
    assert_eq!(store.get_balance("alice"), Ok(None));
    assert_eq!(store.get_balance("bob"), Ok(None));
}

#[test]
fn contract_fields_should_not_collide_across_contracts() {
    let mut store = InMemoryStateStore::new();
    store.set_contract_state("c1", "x", b"1").expect("写入应成功");
    store.set_contract_state("c2", "x", b"2").expect("写入应成功");
    assert_eq!(store.get_contract_state("c1", "x"), Ok(Some(b"1".to_vec())));
    assert_eq!(store.get_contract_state("c2", "x"), Ok(Some(b"2".to_vec())));
}

#[test]
fn storage_keys_should_use_fixed_prefixes() {
    assert_eq!(contract_key("c", "f"), "c:f");
    assert_eq!(block_key("h"), "history:block:h");
    assert_eq!(tx_key("t"), "history:tx:t");
    assert_eq!(balance_key("a"), "state:account:balance:a");
    assert_eq!(state_contract_key("c", "f"), "state:contract:c:f");
}

#[test]
fn storage_error_message_should_name_the_cause() {
    let e = StorageError::LevelDb("disk full".to_string());
    assert_eq!(e.message(), "LevelDB 操作失败: disk full");
    assert_eq!(StorageError::PoisonedLock.message(), "存储锁异常");
}

#[test]
fn in_memory_history_should_read_back_and_forget() {
    let mut history = InMemoryHistoryStore::new();
    history.put_block("block-hash-1", b"block-bytes").expect("写入区块历史应当成功");
    assert_eq!(history.get_block("block-hash-1").unwrap(), Some(b"block-bytes".to_vec()));
    history.put_transaction("tx-1", b"tx-bytes").expect("写入交易历史应当成功");
    assert_eq!(history.get_transaction("tx-1").unwrap(), Some(b"tx-bytes".to_vec()));
    assert_eq!(history.get_block("tx-1").unwrap(), None);
    history.delete_transaction("tx-1").expect("删除交易历史应当成功");
    assert_eq!(history.get_transaction("tx-1").unwrap(), None);
    history.delete_block("block-hash-1").expect("删除区块历史应当成功");
    assert_eq!(history.get_block("block-hash-1").unwrap(), None);
}

#[test]
fn persisted_block_should_read_back() {
    let mut chain = Blockchain::new(1, 50);
    let block = chain.mine_pending_transactions("miner-1").expect("挖矿应当成功");
    let mut history = InMemoryHistoryStore::new();
    persist_mined_block(&mut history, &block).expect("写入应当成功");
    assert_eq!(history.get_block(&block.hash).unwrap(), Some(encode_block(&block)));
    for tx in &block.transactions {
        assert_eq!(history.get_transaction(&tx.id).unwrap(), Some(encode_transaction(tx)));
    }
}

#[test]
fn persisted_runtime_state_should_read_back() {
    let mut balances: KeyedMap<u64> = KeyedMap::new();
    balances.insert("alice".to_string(), 30);
    balances.insert("bob".to_string(), 20);
    let mut vars: KeyedMap<i64> = KeyedMap::new();
    vars.insert("count".to_string(), -2);
    let mut states: KeyedMap<KeyedMap<i64>> = KeyedMap::new();
    states.insert("contract-1".to_string(), vars);
    let mut events: KeyedMap<Vec<String>> = KeyedMap::new();
    events.insert("contract-1".to_string(), vec!["init".to_string()]);
    let mut store = InMemoryStateStore::new();
    persist_runtime_state(&mut store, &balances, &states, &events).expect("写入应当成功");
    assert_eq!(store.get_balance("alice").unwrap(), Some(30));
    assert_eq!(store.get_balance("bob").unwrap(), Some(20));
    assert_eq!(store.get_contract_state("contract-1", "count").unwrap(), Some((-2i64 as u64).to_le_bytes().to_vec()));
    let snapshot = encode_fields(states.get("contract-1").unwrap());
    assert_eq!(store.get_contract_state("contract-1", "__snapshot__").unwrap(), Some(snapshot));
    let raw = encode_texts(&vec!["init".to_string()]);
    assert_eq!(store.get_contract_state("contract-1", "__events__").unwrap(), Some(raw));
}
