//! Read-only queries over the chain and the pending pool: blocks by height,
//! the transactions of an address (confirmed or pending) with their
//! direction, paging, and per-address totals.

use vstd::prelude::*;
use crate::block::{Block, BlockV, txs_view, copy_block};
use crate::config::{lower_ascii, lower_chars};
use crate::text::{chars_of, trim, trim_chars, chars_eq_str, str_eq, is_blank, is_blank_seq};
use crate::transaction::{Transaction, TransactionV, copy_transaction};

verus! {

/// The largest page a query may ask for.
pub const MAX_PAGE_LIMIT: usize = 200;
/// The page size when none is asked for.
pub const DEFAULT_PAGE_LIMIT: usize = 20;

/// A refused query: the HTTP status and the message.
#[derive(Debug, Clone, PartialEq, Eq)]
pub struct ApiError {
    /// HTTP status code.
    pub status: u16,
    /// What was wrong.
    pub message: String,
}

/// Which transactions of an address a query wants.
#[derive(Debug, Clone, Copy, PartialEq, Eq, Structural)]
pub enum Direction {
    /// Sent or received.
    All,
    /// Received.
    In,
    /// Sent.
    Out,
}

/// How a transaction relates to an address.
#[derive(Debug, Clone, Copy, PartialEq, Eq, Structural)]
pub enum TxDirection {
    /// Sent to itself.
    SelfTransfer,
    /// Sent by it.
    Out,
    /// Received by it.
    In,
}

impl Direction {
    /// The direction's name.
    pub fn as_str(&self) -> (r: &'static str)
        ensures
            r@ == direction_name(*self)@,
    {
        match self {
            Direction::All => "all",
            Direction::In => "in",
            Direction::Out => "out",
        }
    }
}

impl TxDirection {
    /// The direction's name.
    pub fn as_str(&self) -> (r: &'static str)
        ensures
            r@ == tx_direction_name(*self)@,
    {
        match self {
            TxDirection::SelfTransfer => "self",
            TxDirection::Out => "out",
            TxDirection::In => "in",
        }
    }
}

/// The name of a query direction.
pub open spec fn direction_name(d: Direction) -> &'static str {
    match d {
        Direction::All => "all",
        Direction::In => "in",
        Direction::Out => "out",
    }
}

/// The name of a transaction's direction.
pub open spec fn tx_direction_name(d: TxDirection) -> &'static str {
    match d {
        TxDirection::SelfTransfer => "self",
        TxDirection::Out => "out",
        TxDirection::In => "in",
    }
}

/// The direction a query names (`all` when none), ignoring surrounding
/// whitespace and ASCII case.
pub open spec fn direction_of(raw: Option<Seq<char>>) -> Option<Direction> {
    let n = match raw {
        Some(s) => lower_ascii(trim(s)),
        None => "all"@,
    };
    if n == "all"@ {
        Some(Direction::All)
    } else if n == "in"@ {
        Some(Direction::In)
    } else if n == "out"@ {
        Some(Direction::Out)
    } else {
        None
    }
}

/// Reads the direction of a query.
pub fn parse_direction(raw: Option<&str>) -> (r: Result<Direction, ApiError>)
    ensures
        match direction_of(match raw { Some(s) => Some(s@), None => None }) {
            Some(d) => r == Ok::<Direction, ApiError>(d),
            None => r is Err && r->Err_0.status == 400 && r->Err_0.message@ == "direction 必须是 all/in/out"@,
        },
{
    let n: Vec<char> = match raw {
        Some(s) => {
            let v = chars_of(s);
            let t = trim_chars(v.as_slice());
            lower_chars(t.as_slice())
        },
        None => {
            let v = chars_of("all");
            proof { reveal_strlit("all"); assert(lower_ascii("all"@) =~= "all"@); }
            v
        },
    };
    proof {
        match raw {
            None => { reveal_strlit("all"); },
            Some(_) => {},
        }
    }
    if chars_eq_str(n.as_slice(), "all") {
        Ok(Direction::All)
    } else if chars_eq_str(n.as_slice(), "in") {
        Ok(Direction::In)
    } else if chars_eq_str(n.as_slice(), "out") {
        Ok(Direction::Out)
    } else {
        Err(ApiError { status: 400, message: String::from_str("direction 必须是 all/in/out") })
    }
}

/// The page size a query asks for: 20 when none, else 1 to 200.
pub fn check_page_limit(limit: Option<usize>) -> (r: Result<usize, ApiError>)
    ensures
        match limit {
            None => r == Ok::<usize, ApiError>(DEFAULT_PAGE_LIMIT),
            Some(l) => if 1 <= l <= MAX_PAGE_LIMIT {
                r == Ok::<usize, ApiError>(l)
            } else {
                r is Err && r->Err_0.status == 400 && r->Err_0.message@ == "limit 必须在 1~200 之间"@
            },
        },
{
    let l = match limit {
        None => DEFAULT_PAGE_LIMIT,
        Some(l) => l,
    };
    if l == 0 || l > MAX_PAGE_LIMIT {
        return Err(ApiError { status: 400, message: String::from_str("limit 必须在 1~200 之间") });
    }
    Ok(l)
}

/// Refuses a blank field: `<name> 不能为空`.
pub fn require_non_blank(value: &str, name: &str) -> (r: Result<(), ApiError>)
    ensures
        is_blank_seq(value@) ==> r is Err && r->Err_0.status == 400 && r->Err_0.message@ == name@ + " 不能为空"@,
        !is_blank_seq(value@) ==> r is Ok,
{
    if is_blank(value) {
        let mut m = String::from_str(name);
        m.append(" 不能为空");
        return Err(ApiError { status: 400, message: m });
    }
    Ok(())
}

/// Whether a transaction concerns `a` in the wanted direction.
pub open spec fn relevant(t: TransactionV, a: Seq<char>, d: Direction) -> bool {
    let is_out = t.from == a;
    let is_in = t.to == a;
    &&& (is_out || is_in)
    &&& (d == Direction::In ==> is_in)
    &&& (d == Direction::Out ==> is_out)
}

/// How a transaction that concerns `a` relates to it.
pub open spec fn direction_for(t: TransactionV, a: Seq<char>) -> TxDirection {
    if t.to == a && t.from == a {
        TxDirection::SelfTransfer
    } else if t.from == a {
        TxDirection::Out
    } else {
        TxDirection::In
    }
}

/// The part of `s` from `offset` on, at most `limit` long.
pub open spec fn page<T>(s: Seq<T>, offset: int, limit: int) -> Seq<T> {
    let start = if offset < s.len() { offset } else { s.len() as int };
    let end = if limit < s.len() - start { start + limit } else { s.len() as int };
    s.subrange(start, end)
}

/// A confirmed transaction of an address, viewed.
pub struct AddressTxV {
    pub block_index: u64,
    pub block_hash: Seq<char>,
    pub direction: TxDirection,
    pub transaction: TransactionV,
}

/// A confirmed transaction of an address.
#[derive(Debug, Clone)]
pub struct AddressTxRecord {
    /// Height of its block.
    pub block_index: u64,
    /// Hash of its block.
    pub block_hash: String,
    /// How it relates to the address.
    pub direction: TxDirection,
    /// The transaction.
    pub transaction: Transaction,
}

impl View for AddressTxRecord {
    type V = AddressTxV;

    open spec fn view(&self) -> AddressTxV {
        AddressTxV {
            block_index: self.block_index,
            block_hash: self.block_hash@,
            direction: self.direction,
            transaction: self.transaction@,
        }
    }
}

/// The first `n` transactions of a block that concern `a`, in order.
pub open spec fn block_records(b: BlockV, a: Seq<char>, d: Direction, n: int) -> Seq<AddressTxV>
    decreases n,
{
    if n <= 0 {
        Seq::empty()
    } else {
        let r = block_records(b, a, d, n - 1);
        let t = b.transactions[n - 1];
        if relevant(t, a, d) {
            r.push(AddressTxV { block_index: b.index, block_hash: b.hash, direction: direction_for(t, a), transaction: t })
        } else {
            r
        }
    }
}

/// The records of the last `k` blocks, newest block first.
pub open spec fn chain_records(blocks: Seq<BlockV>, a: Seq<char>, d: Direction, k: int) -> Seq<AddressTxV>
    decreases k,
{
    if k <= 0 || k > blocks.len() {
        Seq::empty()
    } else {
        let b = blocks[blocks.len() - k];
        chain_records(blocks, a, d, k - 1) + block_records(b, a, d, b.transactions.len() as int)
    }
}

/// Copies `s[start..end]`.
fn copy_records(s: &Vec<AddressTxRecord>, start: usize, end: usize) -> (r: Vec<AddressTxRecord>)
    requires
        start <= end <= s@.len(),
    ensures
        r@.map_values(|x: AddressTxRecord| x@) == s@.map_values(|x: AddressTxRecord| x@).subrange(start as int, end as int),
{
    let ghost sv = s@.map_values(|x: AddressTxRecord| x@);
    let mut out: Vec<AddressTxRecord> = Vec::new();
    let mut i = start;
    while i < end
        invariant
            start <= i <= end <= s@.len(),
            sv == s@.map_values(|x: AddressTxRecord| x@),
            out@.map_values(|x: AddressTxRecord| x@) == sv.subrange(start as int, i as int),
        decreases end - i,
    {
        let x = &s[i];
        let ghost before = out@.map_values(|x: AddressTxRecord| x@);
        out.push(AddressTxRecord {
            block_index: x.block_index,
            block_hash: x.block_hash.clone(),
            direction: x.direction,
            transaction: copy_transaction(&x.transaction),
        });
        proof {
            assert(out@.map_values(|x: AddressTxRecord| x@) =~= before.push(sv[i as int]));
            assert(sv.subrange(start as int, i + 1) =~= sv.subrange(start as int, i as int).push(sv[i as int]));
        }
        i = i + 1;
    }
    out
}

/// The bounds of a page of `len` items.
fn page_bounds(len: usize, offset: usize, limit: usize) -> (r: (usize, usize))
    ensures
        r.0 == (if offset < len { offset as int } else { len as int }),
        r.1 == (if limit < len - r.0 { r.0 + limit } else { len as int }),
{
    let start = if offset < len { offset } else { len };
    let end = if limit < len - start { start + limit } else { len };
    (start, end)
}

/// The confirmed transactions of `address`, newest block first, wanted by
/// `direction`: how many there are, and the page from `offset`, at most
/// `limit` of them.
pub fn address_transactions(blocks: &[Block], address: &str, direction: Direction, offset: usize, limit: usize) -> (r: (usize, Vec<AddressTxRecord>))
    ensures
        ({
            let all = chain_records(blocks@.map_values(|b: Block| b@), address@, direction, blocks@.len() as int);
            &&& r.0 == all.len()
            &&& r.1@.map_values(|x: AddressTxRecord| x@) == page(all, offset as int, limit as int)
        }),
{
    let ghost bv = blocks@.map_values(|b: Block| b@);
    let ghost a = address@;
    let mut records: Vec<AddressTxRecord> = Vec::new();
    let mut k: usize = 0;
    let n = blocks.len();
    while k < n
        invariant
            k <= n,
            n == blocks@.len(),
            bv == blocks@.map_values(|b: Block| b@),
            a == address@,
            records@.map_values(|x: AddressTxRecord| x@) == chain_records(bv, a, direction, k as int),
        decreases n - k,
    {
        let block = &blocks[n - 1 - k];
        proof { assert(block@ == bv[n - (k + 1)]); }
        let ghost base = records@.map_values(|x: AddressTxRecord| x@);
        let mut j: usize = 0;
        while j < block.transactions.len()
            invariant
                j <= block.transactions@.len(),
                block@.transactions.len() == block.transactions@.len(),
                a == address@,
                records@.map_values(|x: AddressTxRecord| x@) == base + block_records(block@, a, direction, j as int),
            decreases block.transactions.len() - j,
        {
            let tx = &block.transactions[j];
            proof { assert(block@.transactions[j as int] == tx@); }
            let is_out = str_eq(tx.from.as_str(), address);
            let is_in = str_eq(tx.to.as_str(), address);
            let wanted = (is_out || is_in)
                && (direction != Direction::In || is_in)
                && (direction != Direction::Out || is_out);
            if wanted {
                let tx_direction = if is_in && is_out {
                    TxDirection::SelfTransfer
                } else if is_out {
                    TxDirection::Out
                } else {
                    TxDirection::In
                };
                let ghost before = records@.map_values(|x: AddressTxRecord| x@);
                records.push(AddressTxRecord {
                    block_index: block.index,
                    block_hash: block.hash.clone(),
                    direction: tx_direction,
                    transaction: copy_transaction(tx),
                });
                proof {
                    assert(records@.map_values(|x: AddressTxRecord| x@) =~= before.push(AddressTxV {
                        block_index: block@.index,
                        block_hash: block@.hash,
                        direction: direction_for(tx@, a),
                        transaction: tx@,
                    }));
                }
            }
            j = j + 1;
        }
        proof {
            assert(chain_records(bv, a, direction, k + 1) == base + block_records(block@, a, direction, block@.transactions.len() as int));
        }
        k = k + 1;
    }
    let total = records.len();
    let (start, end) = page_bounds(total, offset, limit);
    let page_items = copy_records(&records, start, end);
    (total, page_items)
}


/// A pending transaction of an address, viewed.
pub struct PendingTxV {
    pub direction: TxDirection,
    pub transaction: TransactionV,
}

/// A pending transaction of an address.
#[derive(Debug, Clone)]
pub struct PendingTxRecord {
    /// How it relates to the address.
    pub direction: TxDirection,
    /// The transaction.
    pub transaction: Transaction,
}

impl View for PendingTxRecord {
    type V = PendingTxV;

    open spec fn view(&self) -> PendingTxV {
        PendingTxV { direction: self.direction, transaction: self.transaction@ }
    }
}

/// The records of the last `k` pending transactions that concern `a`, newest first.
pub open spec fn pending_records(p: Seq<TransactionV>, a: Seq<char>, d: Direction, k: int) -> Seq<PendingTxV>
    decreases k,
{
    if k <= 0 || k > p.len() {
        Seq::empty()
    } else {
        let r = pending_records(p, a, d, k - 1);
        let t = p[p.len() - k];
        if relevant(t, a, d) { r.push(PendingTxV { direction: direction_for(t, a), transaction: t }) } else { r }
    }
}

/// The pending transactions of `address`, newest first, wanted by
/// `direction`: how many there are, and the page from `offset`, at most
/// `limit` of them.
pub fn address_pending_transactions(pending: &[Transaction], address: &str, direction: Direction, offset: usize, limit: usize) -> (r: (usize, Vec<PendingTxRecord>))
    ensures
        ({
            let all = pending_records(txs_view(pending@), address@, direction, pending@.len() as int);
            &&& r.0 == all.len()
            &&& r.1@.map_values(|x: PendingTxRecord| x@) == page(all, offset as int, limit as int)
        }),
{
    let ghost pv = txs_view(pending@);
    let ghost a = address@;
    let mut records: Vec<PendingTxRecord> = Vec::new();
    let mut k: usize = 0;
    let n = pending.len();
    while k < n
        invariant
            k <= n,
            n == pending@.len(),
            pv == txs_view(pending@),
            a == address@,
            records@.map_values(|x: PendingTxRecord| x@) == pending_records(pv, a, direction, k as int),
        decreases n - k,
    {
        let tx = &pending[n - 1 - k];
        proof { assert(pv[n - (k + 1)] == tx@); }
        let is_out = str_eq(tx.from.as_str(), address);
        let is_in = str_eq(tx.to.as_str(), address);
        let wanted = (is_out || is_in)
            && (direction != Direction::In || is_in)
            && (direction != Direction::Out || is_out);
        if wanted {
            let tx_direction = if is_in && is_out {
                TxDirection::SelfTransfer
            } else if is_out {
                TxDirection::Out
            } else {
                TxDirection::In
            };
            let ghost before = records@.map_values(|x: PendingTxRecord| x@);
            records.push(PendingTxRecord { direction: tx_direction, transaction: copy_transaction(tx) });
            proof {
                assert(records@.map_values(|x: PendingTxRecord| x@) =~= before.push(PendingTxV { direction: direction_for(tx@, a), transaction: tx@ }));
            }
        }
        k = k + 1;
    }
    let total = records.len();
    let (start, end) = page_bounds(total, offset, limit);
    let ghost sv = records@.map_values(|x: PendingTxRecord| x@);
    let mut out: Vec<PendingTxRecord> = Vec::new();
    let mut i = start;
    while i < end
        invariant
            start <= i <= end <= records@.len(),
            sv == records@.map_values(|x: PendingTxRecord| x@),
            out@.map_values(|x: PendingTxRecord| x@) == sv.subrange(start as int, i as int),
        decreases end - i,
    {
        let ghost before = out@.map_values(|x: PendingTxRecord| x@);
        out.push(PendingTxRecord { direction: records[i].direction, transaction: copy_transaction(&records[i].transaction) });
        proof {
            assert(out@.map_values(|x: PendingTxRecord| x@) =~= before.push(sv[i as int]));
            assert(sv.subrange(start as int, i + 1) =~= sv.subrange(start as int, i as int).push(sv[i as int]));
        }
        i = i + 1;
    }
    (total, out)
}

/// Counts and amounts of what an address received and sent.
#[derive(Debug, Clone, Copy, PartialEq, Eq, Structural)]
pub struct FlowTotals {
    /// Transactions received.
    pub in_count: usize,
    /// Transactions sent.
    pub out_count: usize,
    /// Amount received (saturating).
    pub in_amount: u64,
    /// Amount sent (saturating).
    pub out_amount: u64,
}

/// Adds one, saturating at `usize::MAX`.
pub open spec fn bump_count(c: usize) -> usize {
    if c == usize::MAX { c } else { (c + 1) as usize }
}

/// Adds, saturating at `u64::MAX`.
pub open spec fn add_amount(x: u64, y: u64) -> u64 {
    if x + y > u64::MAX { u64::MAX } else { (x + y) as u64 }
}

/// The totals after one more transaction.
pub open spec fn flow_step(f: FlowTotals, t: TransactionV, a: Seq<char>) -> FlowTotals {
    let f1 = if t.to == a { FlowTotals { in_count: bump_count(f.in_count), in_amount: add_amount(f.in_amount, t.amount), ..f } } else { f };
    if t.from == a { FlowTotals { out_count: bump_count(f1.out_count), out_amount: add_amount(f1.out_amount, t.amount), ..f1 } } else { f1 }
}

/// The totals over the first `n` transactions.
pub open spec fn flow_over(f: FlowTotals, txs: Seq<TransactionV>, a: Seq<char>, n: int) -> FlowTotals
    decreases n,
{
    if n <= 0 || n > txs.len() { f } else { flow_step(flow_over(f, txs, a, n - 1), txs[n - 1], a) }
}

/// The totals over the first `k` blocks.
pub open spec fn flow_blocks(f: FlowTotals, blocks: Seq<BlockV>, a: Seq<char>, k: int) -> FlowTotals
    decreases k,
{
    if k <= 0 || k > blocks.len() {
        f
    } else {
        let b = blocks[k - 1];
        flow_over(flow_blocks(f, blocks, a, k - 1), b.transactions, a, b.transactions.len() as int)
    }
}

/// No transaction counted yet.
pub open spec fn zero_flow() -> FlowTotals {
    FlowTotals { in_count: 0, out_count: 0, in_amount: 0, out_amount: 0 }
}

/// Adds the transactions to the totals.
fn add_flows(f: FlowTotals, txs: &[Transaction], address: &str) -> (r: FlowTotals)
    ensures
        r == flow_over(f, txs_view(txs@), address@, txs@.len() as int),
{
    let mut acc = f;
    let mut i: usize = 0;
    while i < txs.len()
        invariant
            i <= txs@.len(),
            acc == flow_over(f, txs_view(txs@), address@, i as int),
        decreases txs.len() - i,
    {
        let tx = &txs[i];
        proof { assert(txs_view(txs@)[i as int] == tx@); }
        if str_eq(tx.to.as_str(), address) {
            acc.in_count = acc.in_count.saturating_add(1);
            acc.in_amount = acc.in_amount.saturating_add(tx.amount);
        }
        if str_eq(tx.from.as_str(), address) {
            acc.out_count = acc.out_count.saturating_add(1);
            acc.out_amount = acc.out_amount.saturating_add(tx.amount);
        }
        i = i + 1;
    }
    acc
}

/// What `address` received and sent in the confirmed blocks and in the
/// pending pool.
pub fn address_flows(blocks: &[Block], pending: &[Transaction], address: &str) -> (r: (FlowTotals, FlowTotals))
    ensures
        r.0 == flow_blocks(zero_flow(), blocks@.map_values(|b: Block| b@), address@, blocks@.len() as int),
        r.1 == flow_over(zero_flow(), txs_view(pending@), address@, pending@.len() as int),
{
    let ghost bv = blocks@.map_values(|b: Block| b@);
    let mut confirmed = FlowTotals { in_count: 0, out_count: 0, in_amount: 0, out_amount: 0 };
    let mut k: usize = 0;
    while k < blocks.len()
        invariant
            k <= blocks@.len(),
            bv == blocks@.map_values(|b: Block| b@),
            confirmed == flow_blocks(zero_flow(), bv, address@, k as int),
        decreases blocks.len() - k,
    {
        proof { assert(bv[k as int] == blocks@[k as int]@); }
        confirmed = add_flows(confirmed, blocks[k].transactions.as_slice(), address);
        k = k + 1;
    }
    let pending_totals = add_flows(FlowTotals { in_count: 0, out_count: 0, in_amount: 0, out_amount: 0 }, pending, address);
    (confirmed, pending_totals)
}

/// The pending transactions whose sender or recipient is `a` (all of them when no address is given).
pub open spec fn mempool_matches(p: Seq<TransactionV>, a: Option<Seq<char>>, n: int) -> Seq<TransactionV>
    decreases n,
{
    if n <= 0 || n > p.len() {
        Seq::empty()
    } else {
        let r = mempool_matches(p, a, n - 1);
        let t = p[n - 1];
        let keep = match a { Some(x) => t.from == x || t.to == x, None => true };
        if keep { r.push(t) } else { r }
    }
}

/// The pending pool filtered by address: how many match, and the part from
/// `offset` (at most `limit` of them when a limit is given).
pub fn mempool_page(pending: &[Transaction], address: Option<&str>, offset: usize, limit: Option<usize>) -> (r: (usize, Vec<Transaction>))
    ensures
        ({
            let all = mempool_matches(txs_view(pending@), match address { Some(s) => Some(trim(s@)), None => None }, pending@.len() as int);
            &&& r.0 == all.len()
            &&& txs_view(r.1@) == page(all, offset as int, match limit { Some(l) => l as int, None => all.len() as int })
        }),
{
    let ghost pv = txs_view(pending@);
    let filter: Option<String> = match address {
        Some(s) => {
            let v = chars_of(s);
            let t = trim_chars(v.as_slice());
            Some(crate::text::string_from_chars(t.as_slice()))
        },
        None => None,
    };
    let ghost fa = match address { Some(s) => Some(trim(s@)), None => None::<Seq<char>> };
    proof {
        match address {
            Some(s) => { assert(filter->Some_0@ == trim(s@)); },
            None => {},
        }
    }
    let mut matched: Vec<Transaction> = Vec::new();
    let mut i: usize = 0;
    while i < pending.len()
        invariant
            i <= pending@.len(),
            pv == txs_view(pending@),
            fa == match filter { Some(f) => Some(f@), None => None::<Seq<char>> },
            txs_view(matched@) == mempool_matches(pv, fa, i as int),
        decreases pending.len() - i,
    {
        let tx = &pending[i];
        proof { assert(pv[i as int] == tx@); }
        let keep = match &filter {
            Some(f) => str_eq(tx.from.as_str(), f.as_str()) || str_eq(tx.to.as_str(), f.as_str()),
            None => true,
        };
        if keep {
            let ghost before = txs_view(matched@);
            matched.push(copy_transaction(tx));
            proof { assert(txs_view(matched@) =~= before.push(tx@)); }
        }
        i = i + 1;
    }
    let total = matched.len();
    let l = match limit { Some(l) => l, None => total };
    let (start, end) = page_bounds(total, offset, l);
    let ghost mv = txs_view(matched@);
    let mut out: Vec<Transaction> = Vec::new();
    let mut j = start;
    while j < end
        invariant
            start <= j <= end <= matched@.len(),
            mv == txs_view(matched@),
            txs_view(out@) == mv.subrange(start as int, j as int),
        decreases end - j,
    {
        let ghost before = txs_view(out@);
        out.push(copy_transaction(&matched[j]));
        proof {
            assert(txs_view(out@) =~= before.push(mv[j as int]));
            assert(mv.subrange(start as int, j + 1) =~= mv.subrange(start as int, j as int).push(mv[j as int]));
        }
        j = j + 1;
    }
    (total, out)
}

/// Checks the parameters of a pending-pool query: a limit, when given,
/// must be positive, and an address, when given, must not be blank.
pub fn check_mempool_query(limit: Option<usize>, address: Option<&str>) -> (r: Result<(), ApiError>)
    ensures
        limit == Some(0usize) ==> r is Err && r->Err_0.status == 400 && r->Err_0.message@ == "limit 必须大于 0"@,
        limit != Some(0usize) && (address matches Some(a) && is_blank_seq(a@)) ==> r is Err && r->Err_0.status == 400
            && r->Err_0.message@ == "address 不能为空"@,
        limit != Some(0usize) && !(address matches Some(a) && is_blank_seq(a@)) ==> r is Ok,
{
    if limit == Some(0usize) {
        return Err(ApiError { status: 400, message: String::from_str("limit 必须大于 0") });
    }
    match address {
        Some(a) => if is_blank(a) {
            return Err(ApiError { status: 400, message: String::from_str("address 不能为空") });
        },
        None => {},
    }
    Ok(())
}

/// The blocks at height `from_height` or above, in chain order, at most `limit` of them.
pub open spec fn blocks_from_spec(blocks: Seq<BlockV>, from_height: u64, n: int) -> Seq<BlockV>
    decreases n,
{
    if n <= 0 || n > blocks.len() {
        Seq::empty()
    } else {
        let r = blocks_from_spec(blocks, from_height, n - 1);
        if blocks[n - 1].index >= from_height { r.push(blocks[n - 1]) } else { r }
    }
}

/// Blocks at height `from_height` or above, in chain order, at most `limit` of them.
pub fn blocks_from(blocks: &[Block], from_height: u64, limit: usize) -> (r: Vec<Block>)
    ensures
        r@.map_values(|b: Block| b@) == page(blocks_from_spec(blocks@.map_values(|b: Block| b@), from_height, blocks@.len() as int), 0, limit as int),
{
    let ghost bv = blocks@.map_values(|b: Block| b@);
    let mut all: Vec<Block> = Vec::new();
    let mut i: usize = 0;
    while i < blocks.len()
        invariant
            i <= blocks@.len(),
            bv == blocks@.map_values(|b: Block| b@),
            all@.map_values(|b: Block| b@) == blocks_from_spec(bv, from_height, i as int),
        decreases blocks.len() - i,
    {
        proof { assert(bv[i as int] == blocks@[i as int]@); }
        if blocks[i].index >= from_height {
            let ghost before = all@.map_values(|b: Block| b@);
            all.push(copy_block(&blocks[i]));
            proof { assert(all@.map_values(|b: Block| b@) =~= before.push(bv[i as int])); }
        }
        i = i + 1;
    }
    let (start, end) = page_bounds(all.len(), 0, limit);
    let ghost av = all@.map_values(|b: Block| b@);
    let mut out: Vec<Block> = Vec::new();
    let mut j = start;
    while j < end
        invariant
            start <= j <= end <= all@.len(),
            av == all@.map_values(|b: Block| b@),
            out@.map_values(|b: Block| b@) == av.subrange(start as int, j as int),
        decreases end - j,
    {
        let ghost before = out@.map_values(|b: Block| b@);
        out.push(copy_block(&all[j]));
        proof {
            assert(out@.map_values(|b: Block| b@) =~= before.push(av[j as int]));
            assert(av.subrange(start as int, j + 1) =~= av.subrange(start as int, j as int).push(av[j as int]));
        }
        j = j + 1;
    }
    out
}

/// The first block at height `height`.
pub fn block_at_height(blocks: &[Block], height: u64) -> (r: Option<Block>)
    ensures
        match r {
            Some(b) => exists|i: int| 0 <= i < blocks@.len() && blocks@[i].index == height && b@ == blocks@[i]@
                && (forall|j: int| 0 <= j < i ==> #[trigger] blocks@[j].index != height),
            None => forall|j: int| 0 <= j < blocks@.len() ==> #[trigger] blocks@[j].index != height,
        },
{
    let mut i: usize = 0;
    while i < blocks.len()
        invariant
            i <= blocks@.len(),
            forall|j: int| 0 <= j < i ==> #[trigger] blocks@[j].index != height,
        decreases blocks.len() - i,
    {
        if blocks[i].index == height {
            let b = copy_block(&blocks[i]);
            proof { assert(blocks@[i as int].index == height && b@ == blocks@[i as int]@); }
            return Some(b);
        }
        i = i + 1;
    }
    None
}

/// The first transaction with id `tx_id`.
pub fn transaction_by_id(txs: &[Transaction], tx_id: &str) -> (r: Option<Transaction>)
    ensures
        match r {
            Some(t) => exists|i: int| 0 <= i < txs@.len() && txs@[i].id@ == tx_id@ && t@ == txs@[i]@
                && (forall|j: int| 0 <= j < i ==> #[trigger] txs@[j].id@ != tx_id@),
            None => forall|j: int| 0 <= j < txs@.len() ==> #[trigger] txs@[j].id@ != tx_id@,
        },
{
    let mut i: usize = 0;
    while i < txs.len()
        invariant
            i <= txs@.len(),
            forall|j: int| 0 <= j < i ==> #[trigger] txs@[j].id@ != tx_id@,
        decreases txs.len() - i,
    {
        if str_eq(txs[i].id.as_str(), tx_id) {
            let t = copy_transaction(&txs[i]);
            proof { assert(txs@[i as int].id@ == tx_id@ && t@ == txs@[i as int]@); }
            return Some(t);
        }
        i = i + 1;
    }
    None
}

} // verus!
