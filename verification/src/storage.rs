//! State and history storage: the storage traits, their errors, the keys
//! under which records are kept, and an in-memory state store.

use vstd::prelude::*;
use crate::keyed::KeyedMap;
use crate::message::copy_bytes;

verus! {

/// Storage errors.
#[derive(Debug, Clone, PartialEq, Eq)]
pub enum StorageError {
    /// A RocksDB operation failed.
    RocksDb(String),
    /// A LevelDB operation failed.
    LevelDb(String),
    /// A value could not be encoded or decoded.
    Codec(String),
    /// A lock was poisoned.
    PoisonedLock,
}

/// The text of a storage error.
pub open spec fn storage_error_text(e: StorageError) -> Seq<char> {
    match e {
        StorageError::RocksDb(s) => "RocksDB 操作失败: "@ + s@,
        StorageError::LevelDb(s) => "LevelDB 操作失败: "@ + s@,
        StorageError::Codec(s) => "数据编码失败: "@ + s@,
        StorageError::PoisonedLock => "存储锁异常"@,
    }
}

impl StorageError {
    /// The error as text.
    pub fn message(&self) -> (r: String)
        ensures
            r@ == storage_error_text(*self),
    {
        match self {
            StorageError::RocksDb(s) => {
                let mut t = String::from_str("RocksDB 操作失败: ");
                t.append(s.as_str());
                t
            },
            StorageError::LevelDb(s) => {
                let mut t = String::from_str("LevelDB 操作失败: ");
                t.append(s.as_str());
                t
            },
            StorageError::Codec(s) => {
                let mut t = String::from_str("数据编码失败: ");
                t.append(s.as_str());
                t
            },
            StorageError::PoisonedLock => String::from_str("存储锁异常"),
        }
    }
}

/// Account and contract state storage.
///
/// A store holds balances by account and contract fields under their
/// `contract:field` key. A store that tracks its contents (`tracks_contents`)
/// tells what it holds through `stored_balances` and `stored_fields`, and a
/// write that succeeds changes exactly its entry; of a store that does not,
/// nothing is claimed.
pub trait StateStore {
    /// Whether `stored_balances` and `stored_fields` give what the store holds.
    closed spec fn tracks_contents(&self) -> bool {
        false
    }
    /// The balances held, by account.
    closed spec fn stored_balances(&self) -> Map<Seq<char>, u64> {
        Map::empty()
    }
    /// The contract fields held, by `contract:field` key.
    closed spec fn stored_fields(&self) -> Map<Seq<char>, Seq<u8>> {
        Map::empty()
    }
    /// The balance of an account.
    fn get_balance(&self, account: &str) -> Result<Option<u64>, StorageError>;
    /// Sets the balance of an account.
    fn set_balance(&mut self, account: &str, balance: u64) -> (r: Result<(), StorageError>)
        ensures
            r is Ok && old(self).tracks_contents() ==> final(self).tracks_contents()
                && final(self).stored_balances() == old(self).stored_balances().insert(account@, balance)
                && final(self).stored_fields() == old(self).stored_fields();
    /// Forgets an account.
    fn delete_account(&mut self, account: &str) -> Result<(), StorageError>;
    /// A contract state field.
    fn get_contract_state(&self, contract: &str, field: &str) -> Result<Option<Vec<u8>>, StorageError>;
    /// Sets a contract state field.
    fn set_contract_state(&mut self, contract: &str, field: &str, value: &[u8]) -> (r: Result<(), StorageError>)
        ensures
            r is Ok && old(self).tracks_contents() ==> final(self).tracks_contents()
                && final(self).stored_fields() == old(self).stored_fields().insert(contract_key_spec(contract@, field@), value@)
                && final(self).stored_balances() == old(self).stored_balances();
    /// Removes a contract state field.
    fn delete_contract_state(&mut self, contract: &str, field: &str) -> Result<(), StorageError>;
}

/// Block and transaction history storage.
///
/// A store holds encoded blocks by hash and encoded transactions by id. A
/// store that tracks its contents (`tracks_contents`) tells what it holds
/// through `stored_blocks` and `stored_transactions`, and a write that
/// succeeds changes exactly its entry; of a store that does not, nothing is
/// claimed.
pub trait HistoryStore {
    /// Whether `stored_blocks` and `stored_transactions` give what the store holds.
    closed spec fn tracks_contents(&self) -> bool {
        false
    }
    /// The encoded blocks held, by hash.
    closed spec fn stored_blocks(&self) -> Map<Seq<char>, Seq<u8>> {
        Map::empty()
    }
    /// The encoded transactions held, by id.
    closed spec fn stored_transactions(&self) -> Map<Seq<char>, Seq<u8>> {
        Map::empty()
    }
    /// The stored bytes of a block.
    fn get_block(&self, block_hash: &str) -> Result<Option<Vec<u8>>, StorageError>;
    /// Stores the bytes of a block.
    fn put_block(&mut self, block_hash: &str, encoded: &[u8]) -> (r: Result<(), StorageError>)
        ensures
            r is Ok && old(self).tracks_contents() ==> final(self).tracks_contents()
                && final(self).stored_blocks() == old(self).stored_blocks().insert(block_hash@, encoded@)
                && final(self).stored_transactions() == old(self).stored_transactions();
    /// Removes a block.
    fn delete_block(&mut self, block_hash: &str) -> Result<(), StorageError>;
    /// The stored bytes of a transaction.
    fn get_transaction(&self, tx_id: &str) -> Result<Option<Vec<u8>>, StorageError>;
    /// Stores the bytes of a transaction.
    fn put_transaction(&mut self, tx_id: &str, encoded: &[u8]) -> (r: Result<(), StorageError>)
        ensures
            r is Ok && old(self).tracks_contents() ==> final(self).tracks_contents()
                && final(self).stored_transactions() == old(self).stored_transactions().insert(tx_id@, encoded@)
                && final(self).stored_blocks() == old(self).stored_blocks();
    /// Removes a transaction.
    fn delete_transaction(&mut self, tx_id: &str) -> Result<(), StorageError>;
}

/// The key of a contract field in the in-memory store: `contract:field`.
pub open spec fn contract_key_spec(contract: Seq<char>, field: Seq<char>) -> Seq<char> {
    contract + ":"@ + field
}

/// The key of a block in the history store.
pub open spec fn block_key_spec(block_hash: Seq<char>) -> Seq<char> {
    "history:block:"@ + block_hash
}

/// The key of a transaction in the history store.
pub open spec fn tx_key_spec(tx_id: Seq<char>) -> Seq<char> {
    "history:tx:"@ + tx_id
}

/// The key of an account balance in the persistent state store.
pub open spec fn balance_key_spec(account: Seq<char>) -> Seq<char> {
    "state:account:balance:"@ + account
}

/// The key of a contract field in the persistent state store.
pub open spec fn state_contract_key_spec(contract: Seq<char>, field: Seq<char>) -> Seq<char> {
    "state:contract:"@ + contract + ":"@ + field
}

/// The key of a contract field in the in-memory store.
pub fn contract_key(contract: &str, field: &str) -> (r: String)
    ensures
        r@ == contract_key_spec(contract@, field@),
{
    let mut s = String::from_str(contract);
    s.append(":");
    s.append(field);
    s
}

/// The key of a block in the history store.
pub fn block_key(block_hash: &str) -> (r: String)
    ensures
        r@ == block_key_spec(block_hash@),
{
    let mut s = String::from_str("history:block:");
    s.append(block_hash);
    s
}

/// The key of a transaction in the history store.
pub fn tx_key(tx_id: &str) -> (r: String)
    ensures
        r@ == tx_key_spec(tx_id@),
{
    let mut s = String::from_str("history:tx:");
    s.append(tx_id);
    s
}

/// The key of an account balance in the persistent state store.
pub fn balance_key(account: &str) -> (r: String)
    ensures
        r@ == balance_key_spec(account@),
{
    let mut s = String::from_str("state:account:balance:");
    s.append(account);
    s
}

/// The key of a contract field in the persistent state store.
pub fn state_contract_key(contract: &str, field: &str) -> (r: String)
    ensures
        r@ == state_contract_key_spec(contract@, field@),
{
    let mut s = String::from_str("state:contract:");
    s.append(contract);
    s.append(":");
    s.append(field);
    s
}

/// The contents of an in-memory store: balances by account, and contract
/// fields by their `contract:field` key.
pub struct StoreV {
    pub balances: Map<Seq<char>, u64>,
    pub contract_states: Map<Seq<char>, Seq<u8>>,
}

/// State kept in memory, for development and tests.
pub struct InMemoryStateStore {
    balances: KeyedMap<u64>,
    contract_states: KeyedMap<Vec<u8>>,
}

impl View for InMemoryStateStore {
    type V = StoreV;

    closed spec fn view(&self) -> StoreV {
        StoreV {
            balances: self.balances@,
            contract_states: self.contract_states@.map_values(|v: Vec<u8>| v@),
        }
    }
}

impl Default for InMemoryStateStore {
    fn default() -> (r: Self)
        ensures
            r@.balances == Map::<Seq<char>, u64>::empty(),
            r@.contract_states == Map::<Seq<char>, Seq<u8>>::empty(),
    {
        InMemoryStateStore::new()
    }
}

impl InMemoryStateStore {
    /// An empty store.
    pub fn new() -> (r: Self)
        ensures
            r@.balances == Map::<Seq<char>, u64>::empty(),
            r@.contract_states == Map::<Seq<char>, Seq<u8>>::empty(),
    {
        let r = InMemoryStateStore { balances: KeyedMap::new(), contract_states: KeyedMap::new() };
        assert(r@.contract_states =~= Map::<Seq<char>, Seq<u8>>::empty());
        r
    }
}

impl StateStore for InMemoryStateStore {
    open spec fn tracks_contents(&self) -> bool {
        true
    }

    open spec fn stored_balances(&self) -> Map<Seq<char>, u64> {
        self@.balances
    }

    open spec fn stored_fields(&self) -> Map<Seq<char>, Seq<u8>> {
        self@.contract_states
    }

    fn get_balance(&self, account: &str) -> (r: Result<Option<u64>, StorageError>)
        ensures
            r == Ok::<Option<u64>, StorageError>(
                if self@.balances.contains_key(account@) { Some(self@.balances[account@]) } else { None },
            ),
    {
        match self.balances.get(account) {
            Some(v) => Ok(Some(*v)),
            None => Ok(None),
        }
    }

    fn set_balance(&mut self, account: &str, balance: u64) -> (r: Result<(), StorageError>)
        ensures
            r is Ok,
            final(self)@.balances == old(self)@.balances.insert(account@, balance),
            final(self)@.contract_states == old(self)@.contract_states,
    {
        self.balances.insert(String::from_str(account), balance);
        Ok(())
    }

    fn delete_account(&mut self, account: &str) -> (r: Result<(), StorageError>)
        ensures
            r is Ok,
            final(self)@.balances == old(self)@.balances.remove(account@),
            final(self)@.contract_states == old(self)@.contract_states,
    {
        let _ = self.balances.remove(account);
        Ok(())
    }

    fn get_contract_state(&self, contract: &str, field: &str) -> (r: Result<Option<Vec<u8>>, StorageError>)
        ensures
            r is Ok,
            ({
                let k = contract_key_spec(contract@, field@);
                match r->Ok_0 {
                    Some(v) => self@.contract_states.contains_key(k) && v@ == self@.contract_states[k],
                    None => !self@.contract_states.contains_key(k),
                }
            }),
    {
        let key = contract_key(contract, field);
        match self.contract_states.get(key.as_str()) {
            Some(v) => Ok(Some(copy_bytes(v))),
            None => Ok(None),
        }
    }

    fn set_contract_state(&mut self, contract: &str, field: &str, value: &[u8]) -> (r: Result<(), StorageError>)
        ensures
            r is Ok,
            final(self)@.contract_states == old(self)@.contract_states.insert(contract_key_spec(contract@, field@), value@),
            final(self)@.balances == old(self)@.balances,
    {
        let key = contract_key(contract, field);
        let mut bytes: Vec<u8> = Vec::new();
        let mut i: usize = 0;
        while i < value.len()
            invariant
                i <= value@.len(),
                bytes@ == value@.subrange(0, i as int),
            decreases value.len() - i,
        {
            bytes.push(value[i]);
            proof { assert(bytes@ =~= value@.subrange(0, i + 1)); }
            i = i + 1;
        }
        proof { assert(bytes@ =~= value@); }
        let ghost before = self.contract_states@;
        self.contract_states.insert(key, bytes);
        proof {
            assert(self@.contract_states =~= before.map_values(|v: Vec<u8>| v@).insert(contract_key_spec(contract@, field@), value@));
        }
        Ok(())
    }

    fn delete_contract_state(&mut self, contract: &str, field: &str) -> (r: Result<(), StorageError>)
        ensures
            r is Ok,
            final(self)@.contract_states == old(self)@.contract_states.remove(contract_key_spec(contract@, field@)),
            final(self)@.balances == old(self)@.balances,
    {
        let key = contract_key(contract, field);
        let ghost before = self.contract_states@;
        let _ = self.contract_states.remove(key.as_str());
        proof {
            assert(self@.contract_states =~= before.map_values(|v: Vec<u8>| v@).remove(contract_key_spec(contract@, field@)));
        }
        Ok(())
    }
}

/// A copy of some bytes.
fn bytes_of(value: &[u8]) -> (r: Vec<u8>)
    ensures
        r@ == value@,
{
    let mut bytes: Vec<u8> = Vec::new();
    let mut i: usize = 0;
    while i < value.len()
        invariant
            i <= value@.len(),
            bytes@ == value@.subrange(0, i as int),
        decreases value.len() - i,
    {
        bytes.push(value[i]);
        proof { assert(bytes@ =~= value@.subrange(0, i + 1)); }
        i = i + 1;
    }
    proof { assert(bytes@ =~= value@); }
    bytes
}

/// The contents of an in-memory history: encoded blocks by hash and encoded
/// transactions by id.
pub struct HistoryV {
    pub blocks: Map<Seq<char>, Seq<u8>>,
    pub transactions: Map<Seq<char>, Seq<u8>>,
}

/// Block and transaction history kept in memory, for development and tests.
pub struct InMemoryHistoryStore {
    blocks: KeyedMap<Vec<u8>>,
    transactions: KeyedMap<Vec<u8>>,
}

impl View for InMemoryHistoryStore {
    type V = HistoryV;

    closed spec fn view(&self) -> HistoryV {
        HistoryV {
            blocks: self.blocks@.map_values(|v: Vec<u8>| v@),
            transactions: self.transactions@.map_values(|v: Vec<u8>| v@),
        }
    }
}

impl InMemoryHistoryStore {
    /// An empty history.
    pub fn new() -> (r: Self)
        ensures
            r@.blocks == Map::<Seq<char>, Seq<u8>>::empty(),
            r@.transactions == Map::<Seq<char>, Seq<u8>>::empty(),
    {
        let r = InMemoryHistoryStore { blocks: KeyedMap::new(), transactions: KeyedMap::new() };
        assert(r@.blocks =~= Map::<Seq<char>, Seq<u8>>::empty());
        assert(r@.transactions =~= Map::<Seq<char>, Seq<u8>>::empty());
        r
    }
}

impl HistoryStore for InMemoryHistoryStore {
    open spec fn tracks_contents(&self) -> bool {
        true
    }

    open spec fn stored_blocks(&self) -> Map<Seq<char>, Seq<u8>> {
        self@.blocks
    }

    open spec fn stored_transactions(&self) -> Map<Seq<char>, Seq<u8>> {
        self@.transactions
    }

    fn get_block(&self, block_hash: &str) -> (r: Result<Option<Vec<u8>>, StorageError>)
        ensures
            r is Ok,
            match r->Ok_0 {
                Some(v) => self@.blocks.contains_key(block_hash@) && v@ == self@.blocks[block_hash@],
                None => !self@.blocks.contains_key(block_hash@),
            },
    {
        match self.blocks.get(block_hash) {
            Some(v) => Ok(Some(bytes_of(v.as_slice()))),
            None => Ok(None),
        }
    }

    fn put_block(&mut self, block_hash: &str, encoded: &[u8]) -> (r: Result<(), StorageError>)
        ensures
            r is Ok,
            final(self)@.blocks == old(self)@.blocks.insert(block_hash@, encoded@),
            final(self)@.transactions == old(self)@.transactions,
    {
        let ghost before = self.blocks@;
        self.blocks.insert(String::from_str(block_hash), bytes_of(encoded));
        proof {
            assert(self@.blocks =~= before.map_values(|v: Vec<u8>| v@).insert(block_hash@, encoded@));
        }
        Ok(())
    }

    fn delete_block(&mut self, block_hash: &str) -> (r: Result<(), StorageError>)
        ensures
            r is Ok,
            final(self)@.blocks == old(self)@.blocks.remove(block_hash@),
            final(self)@.transactions == old(self)@.transactions,
    {
        let ghost before = self.blocks@;
        let _ = self.blocks.remove(block_hash);
        proof {
            assert(self@.blocks =~= before.map_values(|v: Vec<u8>| v@).remove(block_hash@));
        }
        Ok(())
    }

    fn get_transaction(&self, tx_id: &str) -> (r: Result<Option<Vec<u8>>, StorageError>)
        ensures
            r is Ok,
            match r->Ok_0 {
                Some(v) => self@.transactions.contains_key(tx_id@) && v@ == self@.transactions[tx_id@],
                None => !self@.transactions.contains_key(tx_id@),
            },
    {
        match self.transactions.get(tx_id) {
            Some(v) => Ok(Some(bytes_of(v.as_slice()))),
            None => Ok(None),
        }
    }

    fn put_transaction(&mut self, tx_id: &str, encoded: &[u8]) -> (r: Result<(), StorageError>)
        ensures
            r is Ok,
            final(self)@.transactions == old(self)@.transactions.insert(tx_id@, encoded@),
            final(self)@.blocks == old(self)@.blocks,
    {
        let ghost before = self.transactions@;
        self.transactions.insert(String::from_str(tx_id), bytes_of(encoded));
        proof {
            assert(self@.transactions =~= before.map_values(|v: Vec<u8>| v@).insert(tx_id@, encoded@));
        }
        Ok(())
    }

    fn delete_transaction(&mut self, tx_id: &str) -> (r: Result<(), StorageError>)
        ensures
            r is Ok,
            final(self)@.transactions == old(self)@.transactions.remove(tx_id@),
            final(self)@.blocks == old(self)@.blocks,
    {
        let ghost before = self.transactions@;
        let _ = self.transactions.remove(tx_id);
        proof {
            assert(self@.transactions =~= before.map_values(|v: Vec<u8>| v@).remove(tx_id@));
        }
        Ok(())
    }
}

/// A balance that was set reads back, and setting it leaves every other
/// account as it was.
pub proof fn law_balance_read_after_write(s: StoreV, account: Seq<char>, other: Seq<char>, balance: u64)
    requires
        other != account,
    ensures
        s.balances.insert(account, balance).contains_key(account),
        s.balances.insert(account, balance)[account] == balance,
        s.balances.insert(account, balance).contains_key(other) == s.balances.contains_key(other),
        s.balances.contains_key(other) ==> s.balances.insert(account, balance)[other] == s.balances[other],
{
}

/// A contract field that was set reads back until it is deleted; after the
/// delete it reads as absent.
pub proof fn law_contract_field_roundtrip(s: StoreV, contract: Seq<char>, field: Seq<char>, value: Seq<u8>)
    ensures
        ({
            let k = contract_key_spec(contract, field);
            let written = s.contract_states.insert(k, value);
            &&& written.contains_key(k)
            &&& written[k] == value
            &&& !written.remove(k).contains_key(k)
        }),
{
}

} // verus!
