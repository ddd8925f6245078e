//! Over-collateralised lending pool: collateral positions, borrowing against
//! them, interest accrual over the whole pool, repayment and liquidation.
//!
//! Every operation is specified as a function from the pool's view to the
//! next view and the result; the function that runs it is proved to compute
//! exactly that, including the partial updates that an arithmetic overflow
//! leaves behind.

use vstd::prelude::*;
use crate::keyed::{KeyedMap, EntrySeq, key_index, has_key, keys_unique, lemma_key_index};
use crate::text::{dec_u64, dec_i64, dec_nat, dec_int};

verus! {

/// Seconds per year, used to turn an annual rate into interest for a period.
pub const SECONDS_PER_YEAR: u64 = 31_536_000;
/// Basis-point denominator (100% = 10000 bps).
pub const BPS_DENOMINATOR: u64 = 10_000;

/// A borrower's position.
#[derive(Debug, Clone, PartialEq, Eq)]
pub struct LoanPosition {
    /// Address that owns the position.
    pub owner: String,
    /// Collateral deposited.
    pub collateral_amount: u64,
    /// Debt owed.
    pub debt_amount: u64,
    /// Collateral ratio in bps (`u64::MAX` without debt).
    pub collateral_ratio_bps: u64,
}

/// A position with its owner viewed as characters.
pub struct LoanPositionV {
    pub owner: Seq<char>,
    pub collateral_amount: u64,
    pub debt_amount: u64,
    pub collateral_ratio_bps: u64,
}

impl View for LoanPosition {
    type V = LoanPositionV;

    open spec fn view(&self) -> LoanPositionV {
        LoanPositionV {
            owner: self.owner@,
            collateral_amount: self.collateral_amount,
            debt_amount: self.debt_amount,
            collateral_ratio_bps: self.collateral_ratio_bps,
        }
    }
}

/// Parameters of the borrow rate.
#[derive(Debug, Clone, Copy, PartialEq, Eq)]
pub struct InterestRateModel {
    /// Base annual borrow rate (bps).
    pub base_rate_bps: u64,
    /// Rate added per unit of utilisation (bps).
    pub utilization_slope_bps: u64,
}

impl Default for InterestRateModel {
    fn default() -> (r: Self)
        ensures
            r.base_rate_bps == 500,
            r.utilization_slope_bps == 1_500,
    {
        InterestRateModel { base_rate_bps: 500, utilization_slope_bps: 1_500 }
    }
}

/// Parameters of the pool.
#[derive(Debug, Clone, Copy, PartialEq, Eq)]
pub struct LendingConfig {
    /// Lowest collateral ratio (bps) allowed after a borrow or a withdrawal.
    pub min_collateral_ratio_bps: u64,
    /// Below this ratio (bps) a position may be liquidated.
    pub liquidation_ratio_bps: u64,
    /// Extra collateral (bps of the repaid debt) given to the liquidator.
    pub liquidation_bonus_bps: u64,
    /// Borrow rate model.
    pub interest_rate_model: InterestRateModel,
}

impl Default for LendingConfig {
    fn default() -> (r: Self)
        ensures
            r.min_collateral_ratio_bps == 15_000,
            r.liquidation_ratio_bps == 12_000,
            r.liquidation_bonus_bps == 800,
            r.interest_rate_model.base_rate_bps == 500,
            r.interest_rate_model.utilization_slope_bps == 1_500,
    {
        LendingConfig {
            min_collateral_ratio_bps: 15_000,
            liquidation_ratio_bps: 12_000,
            liquidation_bonus_bps: 800,
            interest_rate_model: InterestRateModel::default(),
        }
    }
}

/// What a liquidation did.
#[derive(Debug, Clone, PartialEq, Eq)]
pub struct LiquidationOutcome {
    /// Liquidated address.
    pub borrower: String,
    /// Debt repaid.
    pub repaid_debt: u64,
    /// Collateral taken, bonus included.
    pub seized_collateral: u64,
}

/// A liquidation outcome with the borrower viewed as characters.
pub struct LiquidationOutcomeV {
    pub borrower: Seq<char>,
    pub repaid_debt: u64,
    pub seized_collateral: u64,
}

impl View for LiquidationOutcome {
    type V = LiquidationOutcomeV;

    open spec fn view(&self) -> LiquidationOutcomeV {
        LiquidationOutcomeV {
            borrower: self.borrower@,
            repaid_debt: self.repaid_debt,
            seized_collateral: self.seized_collateral,
        }
    }
}

/// Lending errors.
#[derive(Debug, Clone, PartialEq, Eq)]
pub enum DefiError {
    /// Amounts must be positive.
    InvalidAmount,
    /// Time went backwards.
    TimeRewind { now: i64, last: i64 },
    /// No position for the address.
    PositionNotFound { owner: String },
    /// Not enough collateral to withdraw.
    InsufficientCollateral { available: u64, required: u64 },
    /// The operation would leave the ratio too low.
    CollateralRatioTooLow { actual: u64, required: u64 },
    /// The position cannot be liquidated.
    NotLiquidatable { ratio: u64, threshold: u64 },
    /// An amount left the range of `u64`.
    ArithmeticOverflow,
}

/// A lending error with strings viewed as characters.
pub enum DefiErrorV {
    InvalidAmount,
    TimeRewind { now: i64, last: i64 },
    PositionNotFound { owner: Seq<char> },
    InsufficientCollateral { available: u64, required: u64 },
    CollateralRatioTooLow { actual: u64, required: u64 },
    NotLiquidatable { ratio: u64, threshold: u64 },
    ArithmeticOverflow,
}

impl View for DefiError {
    type V = DefiErrorV;

    open spec fn view(&self) -> DefiErrorV {
        match self {
            DefiError::InvalidAmount => DefiErrorV::InvalidAmount,
            DefiError::TimeRewind { now, last } => DefiErrorV::TimeRewind { now: *now, last: *last },
            DefiError::PositionNotFound { owner } => DefiErrorV::PositionNotFound { owner: owner@ },
            DefiError::InsufficientCollateral { available, required } => DefiErrorV::InsufficientCollateral { available: *available, required: *required },
            DefiError::CollateralRatioTooLow { actual, required } => DefiErrorV::CollateralRatioTooLow { actual: *actual, required: *required },
            DefiError::NotLiquidatable { ratio, threshold } => DefiErrorV::NotLiquidatable { ratio: *ratio, threshold: *threshold },
            DefiError::ArithmeticOverflow => DefiErrorV::ArithmeticOverflow,
        }
    }
}

/// The text of a lending error.
pub open spec fn defi_error_text(e: DefiErrorV) -> Seq<char> {
    match e {
        DefiErrorV::InvalidAmount => "数量必须大于 0"@,
        DefiErrorV::TimeRewind { now, last } => "时间回退: now="@ + dec_int(now as int) + ", last="@ + dec_int(last as int),
        DefiErrorV::PositionNotFound { owner } => "仓位不存在: owner="@ + owner,
        DefiErrorV::InsufficientCollateral { available, required } => "抵押物不足: available="@ + dec_nat(available as nat) + ", required="@ + dec_nat(required as nat),
        DefiErrorV::CollateralRatioTooLow { actual, required } => "抵押率不足: actual="@ + dec_nat(actual as nat) + "bps, required="@ + dec_nat(required as nat) + "bps"@,
        DefiErrorV::NotLiquidatable { ratio, threshold } => "仓位不可清算: ratio="@ + dec_nat(ratio as nat) + "bps, threshold="@ + dec_nat(threshold as nat) + "bps"@,
        DefiErrorV::ArithmeticOverflow => "算术溢出"@,
    }
}

/// `head`, the number `a`, `mid`, the number `b`, then `tail`.
fn two_numbers(head: &str, a: u64, mid: &str, b: u64, tail: &str) -> (r: String)
    ensures
        r@ == head@ + dec_nat(a as nat) + mid@ + dec_nat(b as nat) + tail@,
{
    let mut s = String::from_str(head);
    let x = dec_u64(a);
    s.append(x.as_str());
    s.append(mid);
    let y = dec_u64(b);
    s.append(y.as_str());
    s.append(tail);
    s
}

impl DefiError {
    /// The error as text.
    pub fn message(&self) -> (r: String)
        ensures
            r@ == defi_error_text(self@),
    {
        match self {
            DefiError::InvalidAmount => String::from_str("数量必须大于 0"),
            DefiError::TimeRewind { now, last } => {
                let mut s = String::from_str("时间回退: now=");
                let a = dec_i64(*now);
                s.append(a.as_str());
                s.append(", last=");
                let b = dec_i64(*last);
                s.append(b.as_str());
                s
            },
            DefiError::PositionNotFound { owner } => {
                let mut s = String::from_str("仓位不存在: owner=");
                s.append(owner.as_str());
                s
            },
            DefiError::InsufficientCollateral { available, required } => {
                let t = two_numbers("抵押物不足: available=", *available, ", required=", *required, "");
                proof {
                    reveal_strlit("");
                    assert(t@ =~= "抵押物不足: available="@ + dec_nat(*available as nat) + ", required="@ + dec_nat(*required as nat));
                }
                t
            },
            DefiError::CollateralRatioTooLow { actual, required } => two_numbers("抵押率不足: actual=", *actual, "bps, required=", *required, "bps"),
            DefiError::NotLiquidatable { ratio, threshold } => two_numbers("仓位不可清算: ratio=", *ratio, "bps, threshold=", *threshold, "bps"),
            DefiError::ArithmeticOverflow => String::from_str("算术溢出"),
        }
    }
}

/// The lending pool.
pub struct LendingPool {
    /// Parameters.
    pub config: LendingConfig,
    /// Positions by owner.
    pub positions: KeyedMap<LoanPosition>,
    /// Collateral held by the pool.
    pub total_collateral: u64,
    /// Debt owed to the pool.
    pub total_debt: u64,
    /// Time of the last accrual.
    pub last_accrual_ts: i64,
}

/// Positions in order, owners by their characters.
pub type PosSeq = Seq<(Seq<char>, LoanPositionV)>;

/// The pool, viewed.
pub struct PoolView {
    pub config: LendingConfig,
    pub entries: PosSeq,
    pub total_collateral: u64,
    pub total_debt: u64,
    pub last_accrual_ts: i64,
}

/// The positions of a keyed map, viewed.
pub open spec fn entries_view(s: EntrySeq<LoanPosition>) -> PosSeq {
    s.map_values(|e: (Seq<char>, LoanPosition)| (e.0, e.1@))
}

impl View for LendingPool {
    type V = PoolView;

    open spec fn view(&self) -> PoolView {
        PoolView {
            config: self.config,
            entries: entries_view(self.positions.seq()),
            total_collateral: self.total_collateral,
            total_debt: self.total_debt,
            last_accrual_ts: self.last_accrual_ts,
        }
    }
}

/// Sum of the debts of the positions.
pub open spec fn sum_debt(s: PosSeq) -> int
    decreases s.len(),
{
    if s.len() == 0 { 0 } else { sum_debt(s.drop_last()) + s.last().1.debt_amount }
}

/// Sum of the collateral of the positions.
pub open spec fn sum_collateral(s: PosSeq) -> int
    decreases s.len(),
{
    if s.len() == 0 { 0 } else { sum_collateral(s.drop_last()) + s.last().1.collateral_amount }
}

/// The pool's totals are the sums over its positions.
pub open spec fn consistent(v: PoolView) -> bool {
    &&& v.total_debt == sum_debt(v.entries)
    &&& v.total_collateral == sum_collateral(v.entries)
}

/// Collateral ratio in bps: `u64::MAX` without debt, else `collateral * 10000 / debt`
/// truncated to 64 bits.
pub open spec fn ratio_spec(collateral: u64, debt: u64) -> u64 {
    if debt == 0 {
        u64::MAX
    } else {
        (((collateral as int) * 10_000) / (debt as int)) as u64
    }
}

/// `a * b / denominator`, or `None` when the denominator is 0 or the quotient
/// does not fit in `u64`.
pub open spec fn mul_div_spec(a: u64, b: u64, denominator: u64) -> Option<u64> {
    if denominator == 0 {
        None
    } else if (a as int) * (b as int) / (denominator as int) > u64::MAX {
        None
    } else {
        Some(((a as int) * (b as int) / (denominator as int)) as u64)
    }
}

/// `a + b`, or `u64::MAX` when that overflows.
pub open spec fn sat_add(a: u64, b: u64) -> u64 {
    if a + b > u64::MAX { u64::MAX } else { (a + b) as u64 }
}

/// Utilisation of the pool in bps.
pub open spec fn utilization_spec(total_collateral: u64, total_debt: u64) -> u64 {
    if total_collateral == 0 {
        0
    } else {
        (((total_debt as int) * 10_000) / (total_collateral as int)) as u64
    }
}

/// Annual borrow rate in bps: the base rate plus the slope times utilisation.
pub open spec fn rate_spec(config: LendingConfig, total_collateral: u64, total_debt: u64) -> u64 {
    let u = utilization_spec(total_collateral, total_debt);
    sat_add(
        config.interest_rate_model.base_rate_bps,
        (((u as int) * (config.interest_rate_model.utilization_slope_bps as int)) / 10_000) as u64,
    )
}

/// Interest on `debt` for `delta` seconds at `rate` bps a year, or `None` on overflow.
pub open spec fn interest_spec(debt: u64, rate: u64, delta: u64) -> Option<u64> {
    match mul_div_spec(debt, rate, BPS_DENOMINATOR) {
        None => None,
        Some(x) => if (x as int) * (delta as int) > u64::MAX {
            None
        } else {
            Some((((x as int) * (delta as int)) / (SECONDS_PER_YEAR as int)) as u64)
        },
    }
}

/// A position with a new debt and the ratio that goes with it.
pub open spec fn with_debt(p: LoanPositionV, debt: u64) -> LoanPositionV {
    LoanPositionV { debt_amount: debt, collateral_ratio_bps: ratio_spec(p.collateral_amount, debt), ..p }
}

/// Accrues interest on the position at `i`, with `total` accrued so far.
/// `None` stands for an overflow.
pub open spec fn accrue_one(s: PosSeq, i: int, total: u64, rate: u64, delta: u64) -> (PosSeq, Option<u64>) {
    let p = s[i].1;
    if p.debt_amount == 0 {
        (s, Some(total))
    } else {
        match interest_spec(p.debt_amount, rate, delta) {
            None => (s, None),
            Some(x) => if x == 0 {
                (s, Some(total))
            } else if p.debt_amount + x > u64::MAX {
                (s, None)
            } else {
                let s2 = s.update(i, (s[i].0, with_debt(p, (p.debt_amount + x) as u64)));
                if total + x > u64::MAX { (s2, None) } else { (s2, Some((total + x) as u64)) }
            },
        }
    }
}

/// Accrues interest on the first `n` positions in order; stops at the first overflow.
pub open spec fn accrue_prefix(s: PosSeq, n: int, rate: u64, delta: u64) -> (PosSeq, Option<u64>)
    decreases n,
{
    if n <= 0 {
        (s, Some(0u64))
    } else {
        let (s1, r1) = accrue_prefix(s, n - 1, rate, delta);
        match r1 {
            None => (s1, None),
            Some(t) => accrue_one(s1, n - 1, t, rate, delta),
        }
    }
}

/// The pool with other positions.
pub open spec fn with_entries(v: PoolView, s: PosSeq) -> PoolView {
    PoolView { entries: s, ..v }
}

/// What accruing interest up to `now` does to the pool and returns.
pub open spec fn accrue_spec(v: PoolView, now: i64) -> (PoolView, Result<u64, DefiErrorV>) {
    if now < v.last_accrual_ts {
        (v, Err(DefiErrorV::TimeRewind { now, last: v.last_accrual_ts }))
    } else if now == v.last_accrual_ts || v.total_debt == 0 {
        (PoolView { last_accrual_ts: now, ..v }, Ok(0u64))
    } else {
        let delta = (now - v.last_accrual_ts) as u64;
        let rate = rate_spec(v.config, v.total_collateral, v.total_debt);
        let (s, r) = accrue_prefix(v.entries, v.entries.len() as int, rate, delta);
        match r {
            None => (with_entries(v, s), Err(DefiErrorV::ArithmeticOverflow)),
            Some(t) => if v.total_debt + t > u64::MAX {
                (with_entries(v, s), Err(DefiErrorV::ArithmeticOverflow))
            } else {
                (PoolView { entries: s, total_debt: (v.total_debt + t) as u64, last_accrual_ts: now, ..v }, Ok(t))
            },
        }
    }
}

/// A position with nothing in it.
pub open spec fn fresh_position(owner: Seq<char>) -> LoanPositionV {
    LoanPositionV { owner, collateral_amount: 0, debt_amount: 0, collateral_ratio_bps: u64::MAX }
}

/// What depositing collateral does.
pub open spec fn deposit_spec(v: PoolView, owner: Seq<char>, amount: u64) -> (PoolView, Result<LoanPositionV, DefiErrorV>) {
    if amount == 0 {
        (v, Err(DefiErrorV::InvalidAmount))
    } else {
        let s1 = match key_index(v.entries, owner) {
            Some(_) => v.entries,
            None => v.entries.push((owner, fresh_position(owner))),
        };
        let i = match key_index(v.entries, owner) {
            Some(j) => j,
            None => v.entries.len() as int,
        };
        let p = s1[i].1;
        if p.collateral_amount + amount > u64::MAX {
            (with_entries(v, s1), Err(DefiErrorV::ArithmeticOverflow))
        } else {
            let c = (p.collateral_amount + amount) as u64;
            let p1 = LoanPositionV { collateral_amount: c, ..p };
            if v.total_collateral + amount > u64::MAX {
                (with_entries(v, s1.update(i, (s1[i].0, p1))), Err(DefiErrorV::ArithmeticOverflow))
            } else {
                let p2 = LoanPositionV { collateral_ratio_bps: ratio_spec(c, p.debt_amount), ..p1 };
                (
                    PoolView { entries: s1.update(i, (s1[i].0, p2)), total_collateral: (v.total_collateral + amount) as u64, ..v },
                    Ok(p2),
                )
            }
        }
    }
}

/// Borrowing, once interest is accrued.
pub open spec fn borrow_after(v: PoolView, owner: Seq<char>, amount: u64) -> (PoolView, Result<LoanPositionV, DefiErrorV>) {
    match key_index(v.entries, owner) {
        None => (v, Err(DefiErrorV::PositionNotFound { owner })),
        Some(i) => {
            let p = v.entries[i].1;
            if p.debt_amount + amount > u64::MAX {
                (v, Err(DefiErrorV::ArithmeticOverflow))
            } else {
                let next = (p.debt_amount + amount) as u64;
                let ratio = ratio_spec(p.collateral_amount, next);
                if ratio < v.config.min_collateral_ratio_bps {
                    (v, Err(DefiErrorV::CollateralRatioTooLow { actual: ratio, required: v.config.min_collateral_ratio_bps }))
                } else {
                    let p1 = LoanPositionV { debt_amount: next, collateral_ratio_bps: ratio, ..p };
                    let s = v.entries.update(i, (v.entries[i].0, p1));
                    if v.total_debt + amount > u64::MAX {
                        (with_entries(v, s), Err(DefiErrorV::ArithmeticOverflow))
                    } else {
                        (PoolView { entries: s, total_debt: (v.total_debt + amount) as u64, ..v }, Ok(p1))
                    }
                }
            }
        },
    }
}

/// What borrowing does: accrue, then borrow.
pub open spec fn borrow_spec(v: PoolView, owner: Seq<char>, amount: u64, now: i64) -> (PoolView, Result<LoanPositionV, DefiErrorV>) {
    if amount == 0 {
        (v, Err(DefiErrorV::InvalidAmount))
    } else {
        let (v1, r) = accrue_spec(v, now);
        match r {
            Err(e) => (v1, Err(e)),
            Ok(_) => borrow_after(v1, owner, amount),
        }
    }
}

/// Repaying, once interest is accrued.
pub open spec fn repay_after(v: PoolView, owner: Seq<char>, amount: u64) -> (PoolView, Result<u64, DefiErrorV>) {
    match key_index(v.entries, owner) {
        None => (v, Err(DefiErrorV::PositionNotFound { owner })),
        Some(i) => {
            let p = v.entries[i].1;
            let actual = if amount < p.debt_amount { amount } else { p.debt_amount };
            let d = (p.debt_amount - actual) as u64;
            let p1 = LoanPositionV { debt_amount: d, ..p };
            if v.total_debt < actual {
                (with_entries(v, v.entries.update(i, (v.entries[i].0, p1))), Err(DefiErrorV::ArithmeticOverflow))
            } else {
                let p2 = LoanPositionV { collateral_ratio_bps: ratio_spec(p.collateral_amount, d), ..p1 };
                (
                    PoolView { entries: v.entries.update(i, (v.entries[i].0, p2)), total_debt: (v.total_debt - actual) as u64, ..v },
                    Ok(actual),
                )
            }
        },
    }
}

/// What repaying does: accrue, then repay at most the debt.
pub open spec fn repay_spec(v: PoolView, owner: Seq<char>, amount: u64, now: i64) -> (PoolView, Result<u64, DefiErrorV>) {
    if amount == 0 {
        (v, Err(DefiErrorV::InvalidAmount))
    } else {
        let (v1, r) = accrue_spec(v, now);
        match r {
            Err(e) => (v1, Err(e)),
            Ok(_) => repay_after(v1, owner, amount),
        }
    }
}

/// Withdrawing, once interest is accrued.
pub open spec fn withdraw_after(v: PoolView, owner: Seq<char>, amount: u64) -> (PoolView, Result<LoanPositionV, DefiErrorV>) {
    match key_index(v.entries, owner) {
        None => (v, Err(DefiErrorV::PositionNotFound { owner })),
        Some(i) => {
            let p = v.entries[i].1;
            if p.collateral_amount < amount {
                (v, Err(DefiErrorV::InsufficientCollateral { available: p.collateral_amount, required: amount }))
            } else {
                let c = (p.collateral_amount - amount) as u64;
                let ratio = ratio_spec(c, p.debt_amount);
                if p.debt_amount > 0 && ratio < v.config.min_collateral_ratio_bps {
                    (v, Err(DefiErrorV::CollateralRatioTooLow { actual: ratio, required: v.config.min_collateral_ratio_bps }))
                } else {
                    let p1 = LoanPositionV { collateral_amount: c, collateral_ratio_bps: ratio, ..p };
                    let s = v.entries.update(i, (v.entries[i].0, p1));
                    if v.total_collateral < amount {
                        (with_entries(v, s), Err(DefiErrorV::ArithmeticOverflow))
                    } else {
                        (PoolView { entries: s, total_collateral: (v.total_collateral - amount) as u64, ..v }, Ok(p1))
                    }
                }
            }
        },
    }
}

/// What withdrawing collateral does: accrue, then withdraw if the ratio stays healthy.
pub open spec fn withdraw_spec(v: PoolView, owner: Seq<char>, amount: u64, now: i64) -> (PoolView, Result<LoanPositionV, DefiErrorV>) {
    if amount == 0 {
        (v, Err(DefiErrorV::InvalidAmount))
    } else {
        let (v1, r) = accrue_spec(v, now);
        match r {
            Err(e) => (v1, Err(e)),
            Ok(_) => withdraw_after(v1, owner, amount),
        }
    }
}

/// Liquidating, once interest is accrued.
pub open spec fn liquidate_after(v: PoolView, borrower: Seq<char>, amount: u64) -> (PoolView, Result<LiquidationOutcomeV, DefiErrorV>) {
    match key_index(v.entries, borrower) {
        None => (v, Err(DefiErrorV::PositionNotFound { owner: borrower })),
        Some(i) => {
            let p = v.entries[i].1;
            let threshold = v.config.liquidation_ratio_bps;
            if p.debt_amount == 0 {
                (v, Err(DefiErrorV::NotLiquidatable { ratio: u64::MAX, threshold }))
            } else if p.collateral_ratio_bps >= threshold {
                (v, Err(DefiErrorV::NotLiquidatable { ratio: p.collateral_ratio_bps, threshold }))
            } else {
                let actual = if amount < p.debt_amount { amount } else { p.debt_amount };
                match mul_div_spec(actual, v.config.liquidation_bonus_bps, BPS_DENOMINATOR) {
                    None => (v, Err(DefiErrorV::ArithmeticOverflow)),
                    Some(bonus) => if actual + bonus > u64::MAX {
                        (v, Err(DefiErrorV::ArithmeticOverflow))
                    } else {
                        let want = (actual + bonus) as u64;
                        let seized = if p.collateral_amount < want { p.collateral_amount } else { want };
                        let d = (p.debt_amount - actual) as u64;
                        let c = (p.collateral_amount - seized) as u64;
                        let p1 = LoanPositionV { debt_amount: d, collateral_amount: c, collateral_ratio_bps: ratio_spec(c, d), ..p };
                        let s = v.entries.update(i, (v.entries[i].0, p1));
                        if v.total_debt < actual {
                            (with_entries(v, s), Err(DefiErrorV::ArithmeticOverflow))
                        } else if v.total_collateral < seized {
                            (PoolView { entries: s, total_debt: (v.total_debt - actual) as u64, ..v }, Err(DefiErrorV::ArithmeticOverflow))
                        } else {
                            (
                                PoolView {
                                    entries: s,
                                    total_debt: (v.total_debt - actual) as u64,
                                    total_collateral: (v.total_collateral - seized) as u64,
                                    ..v
                                },
                                Ok(LiquidationOutcomeV { borrower, repaid_debt: actual, seized_collateral: seized }),
                            )
                        }
                    },
                }
            }
        },
    }
}

/// What liquidating does: accrue, then repay part of an unhealthy position's
/// debt against its collateral plus a bonus.
pub open spec fn liquidate_spec(v: PoolView, borrower: Seq<char>, amount: u64, now: i64) -> (PoolView, Result<LiquidationOutcomeV, DefiErrorV>) {
    if amount == 0 {
        (v, Err(DefiErrorV::InvalidAmount))
    } else {
        let (v1, r) = accrue_spec(v, now);
        match r {
            Err(e) => (v1, Err(e)),
            Ok(_) => liquidate_after(v1, borrower, amount),
        }
    }
}

/// A position result, viewed.
pub open spec fn position_result(r: Result<LoanPosition, DefiError>) -> Result<LoanPositionV, DefiErrorV> {
    match r {
        Ok(p) => Ok(p@),
        Err(e) => Err(e@),
    }
}

/// An amount result, viewed.
pub open spec fn amount_result(r: Result<u64, DefiError>) -> Result<u64, DefiErrorV> {
    match r {
        Ok(x) => Ok(x),
        Err(e) => Err(e@),
    }
}

/// A liquidation result, viewed.
pub open spec fn outcome_result(r: Result<LiquidationOutcome, DefiError>) -> Result<LiquidationOutcomeV, DefiErrorV> {
    match r {
        Ok(o) => Ok(o@),
        Err(e) => Err(e@),
    }
}

/// Replacing one position changes the debt sum by the difference.
pub proof fn lemma_sum_update(s: PosSeq, i: int, e: (Seq<char>, LoanPositionV))
    requires
        0 <= i < s.len(),
    ensures
        sum_debt(s.update(i, e)) == sum_debt(s) - s[i].1.debt_amount + e.1.debt_amount,
        sum_collateral(s.update(i, e)) == sum_collateral(s) - s[i].1.collateral_amount + e.1.collateral_amount,
    decreases s.len(),
{
    let t = s.update(i, e);
    if i == s.len() - 1 {
        assert(t.drop_last() =~= s.drop_last());
    } else {
        assert(t.drop_last() =~= s.drop_last().update(i, e));
        lemma_sum_update(s.drop_last(), i, e);
    }
}

/// Accruing over a prefix keeps the length and adds the accrued total to the debt sum.
pub proof fn lemma_accrue_prefix(s: PosSeq, n: int, rate: u64, delta: u64)
    requires
        0 <= n <= s.len(),
    ensures
        accrue_prefix(s, n, rate, delta).0.len() == s.len(),
        forall|j: int| 0 <= j < s.len() ==> #[trigger] accrue_prefix(s, n, rate, delta).0[j].0 == s[j].0,
        sum_collateral(accrue_prefix(s, n, rate, delta).0) == sum_collateral(s),
        accrue_prefix(s, n, rate, delta).1 matches Some(t) ==> sum_debt(accrue_prefix(s, n, rate, delta).0) == sum_debt(s) + t,
    decreases n,
{
    if n > 0 {
        lemma_accrue_prefix(s, n - 1, rate, delta);
        let (s1, r1) = accrue_prefix(s, n - 1, rate, delta);
        match r1 {
            None => {},
            Some(t) => {
                let p = s1[n - 1].1;
                if p.debt_amount != 0 {
                    match interest_spec(p.debt_amount, rate, delta) {
                        None => {},
                        Some(x) => {
                            if x != 0 && p.debt_amount + x <= u64::MAX {
                                let e = (s1[n - 1].0, with_debt(p, (p.debt_amount + x) as u64));
                                lemma_sum_update(s1, n - 1, e);
                            }
                        },
                    }
                }
            },
        }
    }
}

/// Once accruing over a prefix overflows, longer prefixes give the same.
pub proof fn lemma_accrue_stops(s: PosSeq, k: int, n: int, rate: u64, delta: u64)
    requires
        0 <= k <= n,
        accrue_prefix(s, k, rate, delta).1 is None,
    ensures
        accrue_prefix(s, n, rate, delta) == accrue_prefix(s, k, rate, delta),
    decreases n - k,
{
    if n > k {
        lemma_accrue_stops(s, k, n - 1, rate, delta);
    }
}

/// The product of two 64-bit numbers fits in 128 bits.
proof fn lemma_mul_fits(a: u64, b: u64)
    ensures
        0 <= (a as int) * (b as int) <= u128::MAX,
{
    assert(0 <= (a as int) * (b as int) <= (u64::MAX as int) * (u64::MAX as int)) by (nonlinear_arith);
}

impl LendingPool {
    /// A pool with no positions, last accrued at `now_ts`.
    pub fn new(config: LendingConfig, now_ts: i64) -> (r: Self)
        ensures
            r@ == (PoolView { config, entries: Seq::empty(), total_collateral: 0, total_debt: 0, last_accrual_ts: now_ts }),
            consistent(r@),
    {
        let r = LendingPool { config, positions: KeyedMap::new(), total_collateral: 0, total_debt: 0, last_accrual_ts: now_ts };
        assert(r@.entries =~= Seq::<(Seq<char>, LoanPositionV)>::empty());
        r
    }

    /// A copy of the pool.
    pub fn duplicate(&self) -> (r: LendingPool)
        ensures
            r@ == self@,
    {
        proof { use_type_invariant(&self.positions); self.positions.lemma_unique(); }
        let mut positions: KeyedMap<LoanPosition> = KeyedMap::new();
        let n = self.positions.len();
        let mut i: usize = 0;
        while i < n
            invariant
                n == self.positions.seq().len(),
                i <= n,
                keys_unique(self.positions.seq()),
                positions.seq() == self.positions.seq().subrange(0, i as int),
            decreases n - i,
        {
            let k = self.positions.key_at(i).clone();
            let p = self.positions.value_at(i);
            let c = LoanPosition {
                owner: p.owner.clone(),
                collateral_amount: p.collateral_amount,
                debt_amount: p.debt_amount,
                collateral_ratio_bps: p.collateral_ratio_bps,
            };
            proof {
                assert(c == *p);
                if has_key(positions.seq(), k@) {
                    let j = choose|j: int| 0 <= j < positions.seq().len() && #[trigger] positions.seq()[j].0 == k@;
                    assert(self.positions.seq()[j].0 == k@);
                }
            }
            positions.insert(k, c);
            proof {
                assert(positions.seq() =~= self.positions.seq().subrange(0, i + 1));
            }
            i = i + 1;
        }
        proof { assert(self.positions.seq().subrange(0, n as int) =~= self.positions.seq()); }
        LendingPool {
            config: self.config,
            positions,
            total_collateral: self.total_collateral,
            total_debt: self.total_debt,
            last_accrual_ts: self.last_accrual_ts,
        }
    }

    /// Collateral ratio in bps of a position.
    fn calculate_collateral_ratio_bps(collateral_amount: u64, debt_amount: u64) -> (r: u64)
        ensures
            r == ratio_spec(collateral_amount, debt_amount),
    {
        if debt_amount == 0 {
            return u64::MAX;
        }
        let scaled: u128 = (collateral_amount as u128) * 10_000u128;
        (scaled / (debt_amount as u128)) as u64
    }

    /// `a * b / denominator` without intermediate overflow.
    fn mul_div_u64(a: u64, b: u64, denominator: u64) -> (r: Result<u64, DefiError>)
        ensures
            match r {
                Ok(x) => mul_div_spec(a, b, denominator) == Some(x),
                Err(e) => mul_div_spec(a, b, denominator) is None && e == DefiError::ArithmeticOverflow,
            },
    {
        if denominator == 0 {
            return Err(DefiError::ArithmeticOverflow);
        }
        proof { lemma_mul_fits(a, b); }
        let prod: u128 = (a as u128) * (b as u128);
        let value: u128 = prod / (denominator as u128);
        if value > u64::MAX as u128 {
            Err(DefiError::ArithmeticOverflow)
        } else {
            Ok(value as u64)
        }
    }

    /// Current annual borrow rate in bps.
    pub fn current_borrow_rate_bps(&self) -> (r: u64)
        ensures
            r == rate_spec(self.config, self.total_collateral, self.total_debt),
    {
        let utilization_bps: u64 = if self.total_collateral == 0 {
            0
        } else {
            let scaled: u128 = (self.total_debt as u128) * 10_000u128;
            (scaled / (self.total_collateral as u128)) as u64
        };
        proof { lemma_mul_fits(utilization_bps, self.config.interest_rate_model.utilization_slope_bps); }
        let prod: u128 = (utilization_bps as u128) * (self.config.interest_rate_model.utilization_slope_bps as u128);
        let extra: u64 = (prod / (BPS_DENOMINATOR as u128)) as u64;
        let base = self.config.interest_rate_model.base_rate_bps;
        if base > u64::MAX - extra { u64::MAX } else { base + extra }
    }

    /// Position index for `owner`.
    fn find(&self, owner: &str) -> (r: Option<usize>)
        ensures
            match r {
                Some(i) => i < self@.entries.len() && key_index(self@.entries, owner@) == Some(i as int),
                None => key_index(self@.entries, owner@) is None,
            },
    {
        proof {
            use_type_invariant(&self.positions);
            self.positions.lemma_unique();
            assert(keys_unique(self@.entries)) by {
                assert forall|a: int, b: int| 0 <= a < self@.entries.len() && 0 <= b < self@.entries.len() && a != b
                    implies self@.entries[a].0 != self@.entries[b].0 by {
                    assert(self@.entries[a].0 == self.positions.seq()[a].0);
                    assert(self@.entries[b].0 == self.positions.seq()[b].0);
                }
            }
        }
        match self.positions.index_of(owner) {
            Some(i) => {
                proof {
                    assert(self@.entries[i as int].0 == owner@);
                    lemma_key_index(self@.entries, owner@, i as int);
                }
                Some(i)
            },
            None => {
                proof {
                    if has_key(self@.entries, owner@) {
                        let j = choose|j: int| 0 <= j < self@.entries.len() && #[trigger] self@.entries[j].0 == owner@;
                        assert(self.positions.seq()[j].0 == owner@);
                    }
                }
                None
            },
        }
    }

    /// Replaces the position at `i`, keeping its key.
    fn put(&mut self, i: usize, p: LoanPosition)
        requires
            i < old(self)@.entries.len(),
        ensures
            final(self)@ == with_entries(old(self)@, old(self)@.entries.update(i as int, (old(self)@.entries[i as int].0, p@))),
    {
        let ghost pv = p@;
        self.positions.set_value_at(i, p);
        proof {
            assert(self@.entries =~= old(self)@.entries.update(i as int, (old(self)@.entries[i as int].0, pv)));
        }
    }

    /// A copy of the position at `i`.
    fn position_at(&self, i: usize) -> (r: LoanPosition)
        requires
            i < self@.entries.len(),
        ensures
            r@ == self@.entries[i as int].1,
    {
        let p = self.positions.value_at(i);
        LoanPosition {
            owner: p.owner.clone(),
            collateral_amount: p.collateral_amount,
            debt_amount: p.debt_amount,
            collateral_ratio_bps: p.collateral_ratio_bps,
        }
    }

    /// Deposits collateral, opening a position for `owner` if there is none.
    pub fn deposit_collateral(&mut self, owner: &str, amount: u64) -> (r: Result<LoanPosition, DefiError>)
        ensures
            (final(self)@, position_result(r)) == deposit_spec(old(self)@, owner@, amount),
            consistent(old(self)@) && r is Ok ==> consistent(final(self)@),
    {
        if amount == 0 {
            return Err(DefiError::InvalidAmount);
        }
        let ghost v0 = self@;
        let i = match self.find(owner) {
            Some(i) => i,
            None => {
                let fresh = LoanPosition {
                    owner: String::from_str(owner),
                    collateral_amount: 0,
                    debt_amount: 0,
                    collateral_ratio_bps: u64::MAX,
                };
                let ghost fv = fresh@;
                proof {
                    if has_key(self.positions.seq(), owner@) {
                        let j = choose|j: int| 0 <= j < self.positions.seq().len() && #[trigger] self.positions.seq()[j].0 == owner@;
                        assert(self@.entries[j].0 == owner@);
                    }
                }
                let n = self.positions.len();
                self.positions.insert(String::from_str(owner), fresh);
                proof {
                    assert(self@.entries =~= v0.entries.push((owner@, fv)));
                    assert(v0.entries.push((owner@, fv)).drop_last() =~= v0.entries);
                }
                n
            },
        };
        let ghost s1 = self@.entries;
        let p = self.position_at(i);
        if p.collateral_amount > u64::MAX - amount {
            return Err(DefiError::ArithmeticOverflow);
        }
        let c = p.collateral_amount + amount;
        let p1 = LoanPosition { owner: p.owner.clone(), collateral_amount: c, debt_amount: p.debt_amount, collateral_ratio_bps: p.collateral_ratio_bps };
        self.put(i, p1);
        if self.total_collateral > u64::MAX - amount {
            return Err(DefiError::ArithmeticOverflow);
        }
        self.total_collateral = self.total_collateral + amount;
        let ratio = Self::calculate_collateral_ratio_bps(c, p.debt_amount);
        let p2 = LoanPosition { owner: p.owner.clone(), collateral_amount: c, debt_amount: p.debt_amount, collateral_ratio_bps: ratio };
        let out = LoanPosition { owner: p.owner.clone(), collateral_amount: c, debt_amount: p.debt_amount, collateral_ratio_bps: ratio };
        self.put(i, p2);
        proof {
            assert(self@.entries =~= s1.update(i as int, (s1[i as int].0, out@)));
            if consistent(v0) {
                lemma_sum_update(s1, i as int, (s1[i as int].0, out@));
            }
        }
        Ok(out)
    }

    /// Accrues interest on every position up to `now_ts`; returns the interest added.
    pub fn accrue_interest(&mut self, now_ts: i64) -> (r: Result<u64, DefiError>)
        ensures
            (final(self)@, amount_result(r)) == accrue_spec(old(self)@, now_ts),
            consistent(old(self)@) && r is Ok ==> consistent(final(self)@),
    {
        if now_ts < self.last_accrual_ts {
            return Err(DefiError::TimeRewind { now: now_ts, last: self.last_accrual_ts });
        }
        if now_ts == self.last_accrual_ts || self.total_debt == 0 {
            self.last_accrual_ts = now_ts;
            return Ok(0);
        }
        let delta_secs: u64 = ((now_ts as i128) - (self.last_accrual_ts as i128)) as u64;
        let annual_rate_bps = self.current_borrow_rate_bps();
        let ghost v0 = self@;
        let n = self.positions.len();
        let mut total_interest: u64 = 0;
        let mut i: usize = 0;
        while i < n
            invariant
                n == v0.entries.len(),
                i <= n,
                v0 == old(self)@,
                now_ts > v0.last_accrual_ts,
                v0.total_debt != 0,
                delta_secs == (now_ts - v0.last_accrual_ts) as u64,
                annual_rate_bps == rate_spec(v0.config, v0.total_collateral, v0.total_debt),
                self@ == with_entries(v0, self@.entries),
                accrue_prefix(v0.entries, i as int, annual_rate_bps, delta_secs) == (self@.entries, Some(total_interest)),
            decreases n - i,
        {
            proof { lemma_accrue_prefix(v0.entries, i as int, annual_rate_bps, delta_secs); }
            let ghost s = self@.entries;
            let p = self.position_at(i);
            if p.debt_amount != 0 {
                let base = match Self::mul_div_u64(p.debt_amount, annual_rate_bps, BPS_DENOMINATOR) {
                    Ok(x) => x,
                    Err(e) => {
                        proof { lemma_accrue_stops(v0.entries, i + 1, n as int, annual_rate_bps, delta_secs); }
                        return Err(e);
                    },
                };
                let interest = match base.checked_mul(delta_secs) {
                    Some(m) => m / SECONDS_PER_YEAR,
                    None => {
                        proof { lemma_accrue_stops(v0.entries, i + 1, n as int, annual_rate_bps, delta_secs); }
                        return Err(DefiError::ArithmeticOverflow);
                    },
                };
                if interest != 0 {
                    if p.debt_amount > u64::MAX - interest {
                        proof { lemma_accrue_stops(v0.entries, i + 1, n as int, annual_rate_bps, delta_secs); }
                        return Err(DefiError::ArithmeticOverflow);
                    }
                    let debt = p.debt_amount + interest;
                    let ratio = Self::calculate_collateral_ratio_bps(p.collateral_amount, debt);
                    self.put(i, LoanPosition { owner: p.owner.clone(), collateral_amount: p.collateral_amount, debt_amount: debt, collateral_ratio_bps: ratio });
                    if total_interest > u64::MAX - interest {
                        proof { lemma_accrue_stops(v0.entries, i + 1, n as int, annual_rate_bps, delta_secs); }
                        return Err(DefiError::ArithmeticOverflow);
                    }
                    total_interest = total_interest + interest;
                }
            }
            i = i + 1;
        }
        proof { lemma_accrue_prefix(v0.entries, n as int, annual_rate_bps, delta_secs); }
        if self.total_debt > u64::MAX - total_interest {
            return Err(DefiError::ArithmeticOverflow);
        }
        self.total_debt = self.total_debt + total_interest;
        self.last_accrual_ts = now_ts;
        Ok(total_interest)
    }

    /// Borrows against the collateral of `owner`'s position.
    pub fn borrow(&mut self, owner: &str, borrow_amount: u64, now_ts: i64) -> (r: Result<LoanPosition, DefiError>)
        ensures
            (final(self)@, position_result(r)) == borrow_spec(old(self)@, owner@, borrow_amount, now_ts),
            consistent(old(self)@) && r is Ok ==> consistent(final(self)@),
    {
        if borrow_amount == 0 {
            return Err(DefiError::InvalidAmount);
        }
        match self.accrue_interest(now_ts) {
            Err(e) => { return Err(e); },
            Ok(_) => {},
        }
        let ghost v1 = self@;
        let i = match self.find(owner) {
            Some(i) => i,
            None => { return Err(DefiError::PositionNotFound { owner: String::from_str(owner) }); },
        };
        let p = self.position_at(i);
        if p.debt_amount > u64::MAX - borrow_amount {
            return Err(DefiError::ArithmeticOverflow);
        }
        let next_debt = p.debt_amount + borrow_amount;
        let ratio = Self::calculate_collateral_ratio_bps(p.collateral_amount, next_debt);
        if ratio < self.config.min_collateral_ratio_bps {
            return Err(DefiError::CollateralRatioTooLow { actual: ratio, required: self.config.min_collateral_ratio_bps });
        }
        let out = LoanPosition { owner: p.owner.clone(), collateral_amount: p.collateral_amount, debt_amount: next_debt, collateral_ratio_bps: ratio };
        self.put(i, LoanPosition { owner: p.owner.clone(), collateral_amount: p.collateral_amount, debt_amount: next_debt, collateral_ratio_bps: ratio });
        if self.total_debt > u64::MAX - borrow_amount {
            return Err(DefiError::ArithmeticOverflow);
        }
        self.total_debt = self.total_debt + borrow_amount;
        proof {
            if consistent(v1) {
                lemma_sum_update(v1.entries, i as int, (v1.entries[i as int].0, out@));
            }
        }
        Ok(out)
    }

    /// Repays up to `repay_amount` of `owner`'s debt; returns what was repaid.
    pub fn repay(&mut self, owner: &str, repay_amount: u64, now_ts: i64) -> (r: Result<u64, DefiError>)
        ensures
            (final(self)@, amount_result(r)) == repay_spec(old(self)@, owner@, repay_amount, now_ts),
            consistent(old(self)@) && r is Ok ==> consistent(final(self)@),
    {
        if repay_amount == 0 {
            return Err(DefiError::InvalidAmount);
        }
        match self.accrue_interest(now_ts) {
            Err(e) => { return Err(e); },
            Ok(_) => {},
        }
        let ghost v1 = self@;
        let i = match self.find(owner) {
            Some(i) => i,
            None => { return Err(DefiError::PositionNotFound { owner: String::from_str(owner) }); },
        };
        let p = self.position_at(i);
        let actual_repay = if repay_amount < p.debt_amount { repay_amount } else { p.debt_amount };
        let debt = p.debt_amount - actual_repay;
        self.put(i, LoanPosition { owner: p.owner.clone(), collateral_amount: p.collateral_amount, debt_amount: debt, collateral_ratio_bps: p.collateral_ratio_bps });
        if self.total_debt < actual_repay {
            return Err(DefiError::ArithmeticOverflow);
        }
        self.total_debt = self.total_debt - actual_repay;
        let ratio = Self::calculate_collateral_ratio_bps(p.collateral_amount, debt);
        let ghost fin = LoanPositionV { owner: p.owner@, collateral_amount: p.collateral_amount, debt_amount: debt, collateral_ratio_bps: ratio };
        self.put(i, LoanPosition { owner: p.owner.clone(), collateral_amount: p.collateral_amount, debt_amount: debt, collateral_ratio_bps: ratio });
        proof {
            assert(self@.entries =~= v1.entries.update(i as int, (v1.entries[i as int].0, fin)));
            if consistent(v1) {
                lemma_sum_update(v1.entries, i as int, (v1.entries[i as int].0, fin));
            }
        }
        Ok(actual_repay)
    }

    /// Withdraws collateral if the position stays healthy.
    pub fn withdraw_collateral(&mut self, owner: &str, amount: u64, now_ts: i64) -> (r: Result<LoanPosition, DefiError>)
        ensures
            (final(self)@, position_result(r)) == withdraw_spec(old(self)@, owner@, amount, now_ts),
            consistent(old(self)@) && r is Ok ==> consistent(final(self)@),
    {
        if amount == 0 {
            return Err(DefiError::InvalidAmount);
        }
        match self.accrue_interest(now_ts) {
            Err(e) => { return Err(e); },
            Ok(_) => {},
        }
        let ghost v1 = self@;
        let i = match self.find(owner) {
            Some(i) => i,
            None => { return Err(DefiError::PositionNotFound { owner: String::from_str(owner) }); },
        };
        let p = self.position_at(i);
        if p.collateral_amount < amount {
            return Err(DefiError::InsufficientCollateral { available: p.collateral_amount, required: amount });
        }
        let next_collateral = p.collateral_amount - amount;
        let ratio = Self::calculate_collateral_ratio_bps(next_collateral, p.debt_amount);
        if p.debt_amount > 0 && ratio < self.config.min_collateral_ratio_bps {
            return Err(DefiError::CollateralRatioTooLow { actual: ratio, required: self.config.min_collateral_ratio_bps });
        }
        let out = LoanPosition { owner: p.owner.clone(), collateral_amount: next_collateral, debt_amount: p.debt_amount, collateral_ratio_bps: ratio };
        self.put(i, LoanPosition { owner: p.owner.clone(), collateral_amount: next_collateral, debt_amount: p.debt_amount, collateral_ratio_bps: ratio });
        if self.total_collateral < amount {
            return Err(DefiError::ArithmeticOverflow);
        }
        self.total_collateral = self.total_collateral - amount;
        proof {
            if consistent(v1) {
                lemma_sum_update(v1.entries, i as int, (v1.entries[i as int].0, out@));
            }
        }
        Ok(out)
    }

    /// Liquidates part of an unhealthy position: repays up to `repay_amount` of
    /// its debt and seizes that much collateral plus the bonus.
    pub fn liquidate(&mut self, borrower: &str, repay_amount: u64, now_ts: i64) -> (r: Result<LiquidationOutcome, DefiError>)
        ensures
            (final(self)@, outcome_result(r)) == liquidate_spec(old(self)@, borrower@, repay_amount, now_ts),
            consistent(old(self)@) && r is Ok ==> consistent(final(self)@),
    {
        if repay_amount == 0 {
            return Err(DefiError::InvalidAmount);
        }
        match self.accrue_interest(now_ts) {
            Err(e) => { return Err(e); },
            Ok(_) => {},
        }
        let ghost v1 = self@;
        let i = match self.find(borrower) {
            Some(i) => i,
            None => { return Err(DefiError::PositionNotFound { owner: String::from_str(borrower) }); },
        };
        let p = self.position_at(i);
        let threshold = self.config.liquidation_ratio_bps;
        if p.debt_amount == 0 {
            return Err(DefiError::NotLiquidatable { ratio: u64::MAX, threshold });
        }
        if p.collateral_ratio_bps >= threshold {
            return Err(DefiError::NotLiquidatable { ratio: p.collateral_ratio_bps, threshold });
        }
        let actual_repay = if repay_amount < p.debt_amount { repay_amount } else { p.debt_amount };
        let bonus = match Self::mul_div_u64(actual_repay, self.config.liquidation_bonus_bps, BPS_DENOMINATOR) {
            Ok(b) => b,
            Err(e) => { return Err(e); },
        };
        if actual_repay > u64::MAX - bonus {
            return Err(DefiError::ArithmeticOverflow);
        }
        let want = actual_repay + bonus;
        let seized_total = if p.collateral_amount < want { p.collateral_amount } else { want };
        let debt = p.debt_amount - actual_repay;
        let collateral = p.collateral_amount - seized_total;
        let ratio = Self::calculate_collateral_ratio_bps(collateral, debt);
        let ghost fin = LoanPositionV { owner: p.owner@, collateral_amount: collateral, debt_amount: debt, collateral_ratio_bps: ratio };
        self.put(i, LoanPosition { owner: p.owner.clone(), collateral_amount: collateral, debt_amount: debt, collateral_ratio_bps: ratio });
        if self.total_debt < actual_repay {
            return Err(DefiError::ArithmeticOverflow);
        }
        self.total_debt = self.total_debt - actual_repay;
        if self.total_collateral < seized_total {
            return Err(DefiError::ArithmeticOverflow);
        }
        self.total_collateral = self.total_collateral - seized_total;
        proof {
            if consistent(v1) {
                lemma_sum_update(v1.entries, i as int, (v1.entries[i as int].0, fin));
            }
        }
        Ok(LiquidationOutcome { borrower: String::from_str(borrower), repaid_debt: actual_repay, seized_collateral: seized_total })
    }
}

// ---------------------------------------------------------------- laws

/// The position of `owner` in a pool, when there is one.
pub open spec fn position_in(v: PoolView, owner: Seq<char>) -> Option<LoanPositionV> {
    match key_index(v.entries, owner) {
        Some(i) => Some(v.entries[i].1),
        None => None,
    }
}

/// Interest accrual changes neither the pool's rules nor which positions it holds.
proof fn lemma_accrue_keeps(v: PoolView, now: i64)
    ensures
        accrue_spec(v, now).0.config == v.config,
{
}

/// A successful borrow leaves the position owing more than before by the
/// amount borrowed, and at or above the minimum collateral ratio.
pub proof fn law_borrow_keeps_min_ratio(v: PoolView, owner: Seq<char>, amount: u64, now: i64)
    ensures
        borrow_spec(v, owner, amount, now).1 matches Ok(p) ==> {
            let before = position_in(accrue_spec(v, now).0, owner);
            &&& amount > 0
            &&& before is Some
            &&& p.owner == before->0.owner
            &&& p.collateral_amount == before->0.collateral_amount
            &&& p.debt_amount == before->0.debt_amount + amount
            &&& p.collateral_ratio_bps == ratio_spec(p.collateral_amount, p.debt_amount)
            &&& ratio_spec(p.collateral_amount, p.debt_amount) >= v.config.min_collateral_ratio_bps
            &&& borrow_spec(v, owner, amount, now).0.entries[key_index(accrue_spec(v, now).0.entries, owner)->0].1 == p
        },
{
    lemma_accrue_keeps(v, now);
    let (v1, r) = accrue_spec(v, now);
    if amount > 0 && r is Ok {
        if let Some(i) = key_index(v1.entries, owner) {
            let (w, res) = borrow_spec(v, owner, amount, now);
            if res is Ok {
            }
        }
    }
}

/// A successful withdrawal takes the amount from the position's collateral
/// and, while the position owes anything, leaves it at or above the minimum
/// collateral ratio.
pub proof fn law_withdraw_keeps_min_ratio(v: PoolView, owner: Seq<char>, amount: u64, now: i64)
    ensures
        withdraw_spec(v, owner, amount, now).1 matches Ok(p) ==> {
            let before = position_in(accrue_spec(v, now).0, owner);
            &&& amount > 0
            &&& before is Some
            &&& p.collateral_amount + amount == before->0.collateral_amount
            &&& p.debt_amount == before->0.debt_amount
            &&& p.debt_amount > 0 ==> ratio_spec(p.collateral_amount, p.debt_amount) >= v.config.min_collateral_ratio_bps
            &&& withdraw_spec(v, owner, amount, now).0.entries[key_index(accrue_spec(v, now).0.entries, owner)->0].1 == p
        },
{
    lemma_accrue_keeps(v, now);
    let (v1, r) = accrue_spec(v, now);
    if amount > 0 && r is Ok {
        if let Some(i) = key_index(v1.entries, owner) {
            let (w, res) = withdraw_spec(v, owner, amount, now);
            if res is Ok {
            }
        }
    }
}

/// A successful liquidation needs a position that owes something and is
/// below the liquidation ratio. It repays the smaller of the amount offered
/// and the debt, and seizes that much collateral plus the liquidation bonus
/// (`repaid * liquidation_bonus_bps / 10000`), at most all the collateral;
/// the position keeps the rest.
pub proof fn law_liquidation_seizes_bonus(v: PoolView, borrower: Seq<char>, amount: u64, now: i64)
    ensures
        liquidate_spec(v, borrower, amount, now).1 matches Ok(o) ==> {
            let before = position_in(accrue_spec(v, now).0, borrower);
            let p = before->0;
            let wanted = o.repaid_debt + o.repaid_debt * v.config.liquidation_bonus_bps / 10000;
            &&& before is Some
            &&& o.borrower == borrower
            &&& p.debt_amount > 0
            &&& p.collateral_ratio_bps < v.config.liquidation_ratio_bps
            &&& o.repaid_debt == (if amount < p.debt_amount { amount } else { p.debt_amount })
            &&& o.seized_collateral == (if p.collateral_amount < wanted { p.collateral_amount as int } else { wanted })
            &&& ({
                let q = liquidate_spec(v, borrower, amount, now).0.entries[key_index(accrue_spec(v, now).0.entries, borrower)->0].1;
                &&& q.debt_amount == p.debt_amount - o.repaid_debt
                &&& q.collateral_amount == p.collateral_amount - o.seized_collateral
            })
        },
{
    lemma_accrue_keeps(v, now);
    let (v1, r) = accrue_spec(v, now);
    if amount > 0 && r is Ok {
        if let Some(i) = key_index(v1.entries, borrower) {
            let (w, res) = liquidate_spec(v, borrower, amount, now);
            if res is Ok {
                let p = v1.entries[i].1;
                let actual = if amount < p.debt_amount { amount } else { p.debt_amount };
                let bonus = mul_div_spec(actual, v1.config.liquidation_bonus_bps, BPS_DENOMINATOR)->0;
                let want = (actual + bonus) as u64;
                let seized = if p.collateral_amount < want { p.collateral_amount } else { want };
                let d = (p.debt_amount - actual) as u64;
                let c = (p.collateral_amount - seized) as u64;
                let p1 = LoanPositionV { debt_amount: d, collateral_amount: c, collateral_ratio_bps: ratio_spec(c, d), ..p };
            }
        }
    }
}

/// A successful deposit adds the amount to the owner's collateral (to a new,
/// empty position when there was none) and leaves the debt as it was.
pub proof fn law_deposit_adds_collateral(v: PoolView, owner: Seq<char>, amount: u64)
    ensures
        deposit_spec(v, owner, amount).1 matches Ok(p) ==> {
            let before = match position_in(v, owner) { Some(q) => q, None => fresh_position(owner) };
            &&& amount > 0
            &&& p.collateral_amount == before.collateral_amount + amount
            &&& p.debt_amount == before.debt_amount
            &&& p.collateral_ratio_bps == ratio_spec(p.collateral_amount, p.debt_amount)
            &&& deposit_spec(v, owner, amount).0.total_collateral == v.total_collateral + amount
        },
{
}

/// A successful repayment repays the smaller of the amount offered and the
/// debt (after interest), and takes exactly that off the position's debt
/// and the pool's total debt.
pub proof fn law_repay_takes_off_debt(v: PoolView, owner: Seq<char>, amount: u64, now: i64)
    ensures
        repay_spec(v, owner, amount, now).1 matches Ok(repaid) ==> {
            let v1 = accrue_spec(v, now).0;
            let i = key_index(v1.entries, owner)->0;
            let p = v1.entries[i].1;
            let w = repay_spec(v, owner, amount, now).0;
            &&& amount > 0
            &&& key_index(v1.entries, owner) is Some
            &&& repaid == (if amount < p.debt_amount { amount } else { p.debt_amount })
            &&& w.entries[i].1.debt_amount == p.debt_amount - repaid
            &&& w.entries[i].1.collateral_amount == p.collateral_amount
            &&& w.total_debt == v1.total_debt - repaid
        },
{
}

} // verus!
