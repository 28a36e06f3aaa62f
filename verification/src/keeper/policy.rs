//! What the keeper does in one tick, as one pure function.
//!
//! Prices are compared by cross-multiplication only. With `R_lo` msats and
//! `R_hi` micros in the pool and an oracle price of `p` micro-USD per bitcoin,
//! the pool's price is at least the oracle's exactly when
//! `R_hi * 10^11 >= R_lo * p`.

use vstd::prelude::*;

use crate::math::{
    amount_out, lemma_curve_out_below_reserve, lemma_quotient, swap_outcome, CurveError,
    MAX_RESERVE,
};
use crate::math_laws::law_output_grows_with_input;
use crate::units::AmountUnit;

verus! {

/// The decimal gap between msats and micros, times the micro-USD the oracle
/// price is denominated in.
pub const DECIMAL_GAP: u128 = 100_000_000_000;

/// One in basis points.
pub const BPS: u128 = 10_000;

/// The pool as of this tick, and the units it is over.
#[derive(Debug, Clone, Copy, PartialEq, Eq, Structural)]
pub struct PoolState {
    pub unit_lo: AmountUnit,
    pub unit_hi: AmountUnit,
    /// Bitcoin reserve, msats.
    pub reserve_lo: u64,
    /// Dollar reserve, micros.
    pub reserve_hi: u64,
    /// The fee in force.
    pub fee_per_mille: u16,
}

/// The pool's own anti-dust thresholds.
#[derive(Debug, Clone, Copy, PartialEq, Eq, Structural)]
pub struct MinSwapIn {
    pub lo: u64,
    pub hi: u64,
}

/// What can be spent, in each unit's base denomination.
#[derive(Debug, Clone, Copy, PartialEq, Eq, Structural)]
pub struct Balances {
    pub lo: u64,
    pub hi: u64,
}

/// The operator's settings.
#[derive(Debug, Clone, Copy, PartialEq, Eq, Structural)]
pub struct KeeperConfig {
    /// Deadband half-width.
    pub band_bps: u64,
    /// The most one trade may move, in micro-USD.
    pub max_trade_micro_usd: u128,
    pub btc_floor_msat: u64,
    pub usdt_floor_micros: u64,
}

/// Which way a correction goes.
#[derive(Debug, Clone, Copy, PartialEq, Eq, Structural)]
pub enum Side {
    /// The pool overvalues bitcoin: spend msats.
    SellBtc,
    /// The pool undervalues bitcoin: spend micros.
    BuyBtc,
}

/// What a tick decides.
#[derive(Debug, Clone, Copy, PartialEq, Eq, Structural)]
pub enum Decision {
    Hold(HoldReason),
    Trade { unit_in: AmountUnit, unit_out: AmountUnit, amount_in: u64 },
}

/// Why a tick did not trade.
#[derive(Debug, Clone, Copy, PartialEq, Eq, Structural)]
pub enum HoldReason {
    /// The pool holds nothing.
    EmptyPool,
    /// One side is empty: there is no price.
    ZeroReserve { reserve_lo: u64, reserve_hi: u64 },
    /// The price or the reserves make the deviation uncomputable.
    Unpriceable,
    /// A band under the fee pays fees to move the price nowhere.
    BandBelowFee { band_bps: u64, fee_per_mille: u16 },
    /// Inside the deadband.
    InBand { dev_bps: i128 },
    /// Every size carries the price past the oracle.
    NoSizeAvailable { dev_bps: i128 },
    /// The clamps left less than the pool accepts.
    BelowMinSwapIn { unit_in: AmountUnit, amount_in: u64, min_swap_in: u64 },
    /// The pool would refuse the swap.
    OutputRoundsToZero { unit_in: AmountUnit, amount_in: u64 },
}

impl HoldReason {
    /// Whether the operator needs to see this hold: all but the two that a
    /// healthy pool produces.
    pub open spec fn warns(self) -> bool {
        !(self is InBand || self is NoSizeAvailable)
    }

    /// Whether this hold is logged as a warning.
    pub fn is_warning(self) -> (r: bool)
        ensures
            r == self.warns(),
    {
        match self {
            HoldReason::EmptyPool
            | HoldReason::ZeroReserve { .. }
            | HoldReason::Unpriceable
            | HoldReason::BandBelowFee { .. }
            | HoldReason::BelowMinSwapIn { .. }
            | HoldReason::OutputRoundsToZero { .. } => true,
            HoldReason::InBand { .. } | HoldReason::NoSizeAvailable { .. } => false,
        }
    }
}

/// The band does not exceed the pool's fee.
#[derive(Debug, Clone, Copy, PartialEq, Eq, Structural)]
pub struct BandTooNarrow {
    pub band_bps: u64,
    pub fee_per_mille: u16,
}

/// Refuses a band narrower than the fee, counting ten basis points to the per
/// mille.
pub fn check_band_exceeds_fee(band_bps: u64, fee_per_mille: u16) -> (r: Result<(), BandTooNarrow>)
    ensures
        r == (if band_bps < fee_per_mille * 10 {
            Err(BandTooNarrow { band_bps, fee_per_mille })
        } else {
            Ok::<(), BandTooNarrow>(())
        }),
{
    if band_bps < fee_per_mille as u64 * 10 {
        return Err(BandTooNarrow { band_bps, fee_per_mille });
    }
    Ok(())
}

/// The pool's price in micro-USD per bitcoin, rounded down; none where the
/// bitcoin reserve is empty.
pub fn pool_price_micro_usd(reserve_lo: u64, reserve_hi: u64) -> (r: Option<u128>)
    ensures
        r == (if reserve_lo == 0 {
            None::<u128>
        } else {
            Some(((reserve_hi * DECIMAL_GAP) / (reserve_lo as int)) as u128)
        }),
        r matches Some(p) ==> p == (reserve_hi * DECIMAL_GAP) / (reserve_lo as int),
{
    if reserve_lo == 0 {
        return None;
    }
    proof {
        lemma_quotient(reserve_hi * DECIMAL_GAP, reserve_lo as int);
    }
    Some(reserve_hi as u128 * DECIMAL_GAP / reserve_lo as u128)
}

/// Division that rounds toward zero, for a positive divisor.
pub open spec fn div_toward_zero(a: int, b: int) -> int {
    if a >= 0 {
        a / b
    } else {
        -((-a) / b)
    }
}

/// `a`, or the end of the `i128` range that it lies beyond.
pub open spec fn saturate_i128(a: int) -> int {
    if a > i128::MAX {
        i128::MAX as int
    } else if a < i128::MIN {
        i128::MIN as int
    } else {
        a
    }
}

/// How far the pool's price lies above the oracle's, in basis points of the
/// oracle's, rounded toward zero. There is no answer where the oracle's side of
/// the comparison is zero or beyond an `i128`.
pub open spec fn deviation_bps(reserve_lo: int, reserve_hi: int, oracle_micro: int) -> Option<
    i128,
> {
    let oracle_side = reserve_lo * oracle_micro;
    if oracle_side == 0 || oracle_side > i128::MAX {
        None
    } else {
        let gap = reserve_hi * DECIMAL_GAP - oracle_side;
        Some(div_toward_zero(saturate_i128(gap * BPS), oracle_side) as i128)
    }
}

/// A quotient by a positive divisor stays within the range of the dividend.
proof fn lemma_div_toward_zero_range(a: int, b: int)
    requires
        0 < b,
    ensures
        a >= 0 ==> 0 <= div_toward_zero(a, b) <= a,
        a < 0 ==> a <= div_toward_zero(a, b) <= 0,
{
    if a >= 0 {
        lemma_quotient(a, b);
    } else {
        lemma_quotient(-a, b);
    }
}

/// How far the pool's price sits above (positive) or below (negative) the
/// oracle's, in basis points.
pub fn dev_bps(reserve_lo: u64, reserve_hi: u64, oracle_micro: u128) -> (r: Option<i128>)
    ensures
        r == deviation_bps(reserve_lo as int, reserve_hi as int, oracle_micro as int),
{
    let oracle_side: u128 = match (reserve_lo as u128).checked_mul(oracle_micro) {
        Some(product) => product,
        None => return None,
    };
    if oracle_side == 0 || oracle_side > i128::MAX as u128 {
        return None;
    }
    let pool_side: u128 = reserve_hi as u128 * DECIMAL_GAP;
    proof {
        let gap = reserve_hi * DECIMAL_GAP - oracle_side;
        lemma_div_toward_zero_range(saturate_i128(gap * BPS), oracle_side as int);
    }
    if pool_side >= oracle_side {
        let scaled: u128 = (pool_side - oracle_side) * BPS;
        proof {
            lemma_quotient(scaled as int, oracle_side as int);
        }
        Some((scaled / oracle_side) as i128)
    } else {
        let gap: u128 = oracle_side - pool_side;
        let limit: u128 = 0x8000_0000_0000_0000_0000_0000_0000_0000;
        let scaled: u128 = if gap > limit / BPS {
            limit
        } else {
            gap * BPS
        };
        let magnitude: u128 = scaled / oracle_side;
        proof {
            lemma_quotient(scaled as int, oracle_side as int);
            assert(saturate_i128(-gap * BPS) == -scaled);
        }
        if magnitude == limit {
            Some(i128::MIN)
        } else {
            Some(-(magnitude as i128))
        }
    }
}

/// The reserve a side pays into and the reserve it takes from.
pub open spec fn side_reserves(side: Side, pool: PoolState) -> (u64, u64) {
    match side {
        Side::SellBtc => (pool.reserve_lo, pool.reserve_hi),
        Side::BuyBtc => (pool.reserve_hi, pool.reserve_lo),
    }
}

fn reserves_for(side: Side, pool: &PoolState) -> (r: (u64, u64))
    ensures
        r == side_reserves(side, *pool),
{
    match side {
        Side::SellBtc => (pool.reserve_lo, pool.reserve_hi),
        Side::BuyBtc => (pool.reserve_hi, pool.reserve_lo),
    }
}

/// The reserves, low unit first, once `dx` has gone in and `out` has come out.
pub open spec fn reserves_after(side: Side, pool: PoolState, dx: int, out: int) -> (int, int) {
    let (reserve_in, reserve_out) = side_reserves(side, pool);
    match side {
        Side::SellBtc => (reserve_in + dx, reserve_out - out),
        Side::BuyBtc => (reserve_out - out, reserve_in + dx),
    }
}

/// Whether reserves `(lo, hi)` price bitcoin past the oracle, seen from the side
/// that moved them: below it for a sale, above it for a purchase.
pub open spec fn past_oracle(side: Side, lo: int, hi: int, oracle_micro: int) -> bool {
    match side {
        Side::SellBtc => hi * DECIMAL_GAP < lo * oracle_micro,
        Side::BuyBtc => hi * DECIMAL_GAP > lo * oracle_micro,
    }
}

/// Whether swapping `dx` carries the pool's price past the oracle. A swap too
/// small to pay out has not moved the price; one that cannot be executed, or
/// compared, counts as past it.
pub open spec fn crosses(side: Side, pool: PoolState, dx: u64, oracle_micro: u128) -> bool {
    let (reserve_in, reserve_out) = side_reserves(side, pool);
    match swap_outcome(reserve_in, reserve_out, dx, pool.fee_per_mille) {
        Ok(out) => {
            let (lo, hi) = reserves_after(side, pool, dx as int, out as int);
            lo * oracle_micro > u128::MAX || past_oracle(side, lo, hi, oracle_micro as int)
        },
        Err(CurveError::ZeroAmount) => false,
        Err(CurveError::OutputRoundsToZero) => false,
        Err(_) => true,
    }
}

/// Whether swapping `dx` carries the pool's price past the oracle.
pub fn crosses_target(side: Side, pool: &PoolState, dx: u64, oracle_micro: u128) -> (r: bool)
    ensures
        r == crosses(side, *pool, dx, oracle_micro),
{
    let (reserve_in, reserve_out) = reserves_for(side, pool);
    let out: u64 = match amount_out(reserve_in, reserve_out, dx, pool.fee_per_mille) {
        Ok(out) => out,
        Err(CurveError::ZeroAmount) | Err(CurveError::OutputRoundsToZero) => return false,
        Err(_) => return true,
    };
    let reserve_in_new: u64 = reserve_in + dx;
    let reserve_out_new: u64 = reserve_out - out;
    let (reserve_lo, reserve_hi) = match side {
        Side::SellBtc => (reserve_in_new, reserve_out_new),
        Side::BuyBtc => (reserve_out_new, reserve_in_new),
    };
    let pool_side: u128 = reserve_hi as u128 * DECIMAL_GAP;
    let oracle_side: u128 = match (reserve_lo as u128).checked_mul(oracle_micro) {
        Some(product) => product,
        None => return true,
    };
    match side {
        Side::SellBtc => pool_side < oracle_side,
        Side::BuyBtc => pool_side > oracle_side,
    }
}

/// The largest input that the pool's reserve cap leaves room for.
pub open spec fn size_limit(side: Side, pool: PoolState) -> int {
    let reserve_in = side_reserves(side, pool).0;
    if reserve_in <= MAX_RESERVE {
        MAX_RESERVE - reserve_in
    } else {
        0
    }
}

/// Whether the comparison is defined along the whole search: a sale only ever
/// raises the oracle's side, a purchase only ever lowers it.
pub open spec fn comparable(side: Side, pool: PoolState, oracle_micro: u128) -> bool {
    side == Side::SellBtc || pool.reserve_lo * oracle_micro <= u128::MAX
}

/// `dx` is the largest size, among those the reserve cap leaves room for, that
/// does not carry the price past the oracle; zero where there is none.
pub open spec fn is_largest_non_crossing(
    side: Side,
    pool: PoolState,
    oracle_micro: u128,
    dx: u64,
) -> bool {
    &&& dx <= size_limit(side, pool)
    &&& dx > 0 ==> !crosses(side, pool, dx, oracle_micro)
    &&& forall|d: u64|
        dx < d <= size_limit(side, pool) ==> #[trigger] crosses(side, pool, d, oracle_micro)
}

/// Once a size crosses, every larger size crosses.
pub proof fn law_crossing_is_monotone(
    side: Side,
    pool: PoolState,
    oracle_micro: u128,
    small: u64,
    big: u64,
)
    requires
        comparable(side, pool, oracle_micro),
        small <= big,
        crosses(side, pool, small, oracle_micro),
    ensures
        crosses(side, pool, big, oracle_micro),
{
    let (reserve_in, reserve_out) = side_reserves(side, pool);
    let fee = pool.fee_per_mille;
    let p = oracle_micro as int;
    match (
        swap_outcome(reserve_in, reserve_out, small, fee),
        swap_outcome(reserve_in, reserve_out, big, fee),
    ) {
        (Ok(a), Ok(b)) => {
            law_output_grows_with_input(
                reserve_in as int,
                reserve_out as int,
                small as int,
                big as int,
                fee as int,
            );
            lemma_curve_out_below_reserve(
                reserve_in as int,
                reserve_out as int,
                small as int,
                fee as int,
            );
            lemma_curve_out_below_reserve(
                reserve_in as int,
                reserve_out as int,
                big as int,
                fee as int,
            );
            let (lo1, hi1) = reserves_after(side, pool, small as int, a as int);
            let (lo2, hi2) = reserves_after(side, pool, big as int, b as int);
            match side {
                Side::SellBtc => {
                    assert(lo1 * p <= lo2 * p) by (nonlinear_arith)
                        requires
                            lo1 <= lo2,
                            0 <= p,
                    ;
                },
                Side::BuyBtc => {
                    assert(lo2 * p <= lo1 * p) by (nonlinear_arith)
                        requires
                            lo2 <= lo1,
                            0 <= p,
                    ;
                    assert(lo1 * p <= pool.reserve_lo * p) by (nonlinear_arith)
                        requires
                            lo1 <= pool.reserve_lo,
                            0 <= p,
                    ;
                },
            }
        },
        (Ok(a), Err(e)) => {
            law_output_grows_with_input(
                reserve_in as int,
                reserve_out as int,
                small as int,
                big as int,
                fee as int,
            );
            lemma_curve_out_below_reserve(
                reserve_in as int,
                reserve_out as int,
                small as int,
                fee as int,
            );
        },
        _ => {},
    }
}

/// The largest size that does not carry the price past the oracle.
pub open spec fn largest_size(side: Side, pool: PoolState, oracle_micro: u128) -> u64 {
    choose|dx: u64| is_largest_non_crossing(side, pool, oracle_micro, dx)
}

/// There is only one largest size.
pub proof fn lemma_largest_is_unique(
    side: Side,
    pool: PoolState,
    oracle_micro: u128,
    a: u64,
    b: u64,
)
    requires
        is_largest_non_crossing(side, pool, oracle_micro, a),
        is_largest_non_crossing(side, pool, oracle_micro, b),
    ensures
        a == b,
{
    if a < b {
        assert(crosses(side, pool, b, oracle_micro));
    } else if b < a {
        assert(crosses(side, pool, a, oracle_micro));
    }
}

/// Where the comparison is defined along the whole search there is a largest
/// size.
pub proof fn lemma_largest_exists(side: Side, pool: PoolState, oracle_micro: u128)
    ensures
        comparable(side, pool, oracle_micro) ==> is_largest_non_crossing(
            side,
            pool,
            oracle_micro,
            largest_size(side, pool, oracle_micro),
        ),
{
    if comparable(side, pool, oracle_micro) {
        lemma_largest_up_to(side, pool, oracle_micro, size_limit(side, pool) as u64);
    }
}

proof fn lemma_largest_up_to(side: Side, pool: PoolState, oracle_micro: u128, high: u64)
    requires
        comparable(side, pool, oracle_micro),
        high <= size_limit(side, pool),
        forall|d: u64|
            high < d <= size_limit(side, pool) ==> #[trigger] crosses(side, pool, d, oracle_micro),
    ensures
        is_largest_non_crossing(side, pool, oracle_micro, largest_size(side, pool, oracle_micro)),
    decreases high,
{
    if high > 0 && crosses(side, pool, high, oracle_micro) {
        lemma_largest_up_to(side, pool, oracle_micro, (high - 1) as u64);
    } else {
        assert(is_largest_non_crossing(side, pool, oracle_micro, high));
    }
}

/// The largest size that does not carry the price past the oracle, by bisection.
///
/// At every price the size returned does not cross and one more unit does, or
/// does not fit under the reserve cap. Wherever the comparison is defined along
/// the whole search, it is the largest such size.
pub fn largest_non_crossing(side: Side, pool: &PoolState, oracle_micro: u128) -> (r: u64)
    ensures
        r <= size_limit(side, *pool),
        r > 0 ==> !crosses(side, *pool, r, oracle_micro),
        r < size_limit(side, *pool) ==> crosses(side, *pool, (r + 1) as u64, oracle_micro),
        comparable(side, *pool, oracle_micro) ==> {
            &&& is_largest_non_crossing(side, *pool, oracle_micro, r)
            &&& r == largest_size(side, *pool, oracle_micro)
        },
{
    let (reserve_in, _) = reserves_for(side, pool);
    let limit: u64 = if reserve_in <= MAX_RESERVE {
        MAX_RESERVE - reserve_in
    } else {
        0
    };
    let mut low: u64 = 1;
    let mut high: u64 = limit;
    let mut best: u64 = 0;
    while low <= high
        invariant
            limit == size_limit(side, *pool),
            limit <= MAX_RESERVE,
            low == best + 1,
            best <= high <= limit,
            best > 0 ==> !crosses(side, *pool, best, oracle_micro),
            high < limit ==> crosses(side, *pool, (high + 1) as u64, oracle_micro),
            comparable(side, *pool, oracle_micro) ==> forall|d: u64|
                high < d <= limit ==> #[trigger] crosses(side, *pool, d, oracle_micro),
        decreases high - best,
    {
        let mid: u64 = low + (high - low) / 2;
        if crosses_target(side, pool, mid, oracle_micro) {
            proof {
                if comparable(side, *pool, oracle_micro) {
                    assert forall|d: u64| mid <= d <= limit implies #[trigger] crosses(
                        side,
                        *pool,
                        d,
                        oracle_micro,
                    ) by {
                        law_crossing_is_monotone(side, *pool, oracle_micro, mid, d);
                    }
                }
            }
            high = mid - 1;
        } else {
            best = mid;
            low = mid + 1;
        }
    }
    proof {
        if comparable(side, *pool, oracle_micro) {
            assert(is_largest_non_crossing(side, *pool, oracle_micro, best));
            lemma_largest_is_unique(
                side,
                *pool,
                oracle_micro,
                best,
                largest_size(side, *pool, oracle_micro),
            );
        }
    }
    best
}

/// The size cap in the input unit, at the oracle price: a dollar is a million
/// micros, and one msat is `p * 10^-11` micro-USD.
pub open spec fn trade_cap(side: Side, max_trade_micro_usd: u128, oracle_micro: u128) -> int {
    let cap = match side {
        Side::BuyBtc => max_trade_micro_usd as int,
        Side::SellBtc => if oracle_micro == 0 {
            0
        } else {
            let scaled = max_trade_micro_usd * DECIMAL_GAP;
            (if scaled > u128::MAX {
                u128::MAX as int
            } else {
                scaled
            }) / (oracle_micro as int)
        },
    };
    if cap > u64::MAX {
        u64::MAX as int
    } else {
        cap
    }
}

/// The size cap in the input unit, at the oracle price.
pub fn max_trade_cap(side: Side, max_trade_micro_usd: u128, oracle_micro: u128) -> (r: u64)
    ensures
        r == trade_cap(side, max_trade_micro_usd, oracle_micro),
{
    let cap: u128 = match side {
        Side::BuyBtc => max_trade_micro_usd,
        Side::SellBtc => {
            if oracle_micro == 0 {
                return 0;
            }
            let scaled: u128 = match max_trade_micro_usd.checked_mul(DECIMAL_GAP) {
                Some(product) => product,
                None => u128::MAX,
            };
            proof {
                lemma_quotient(scaled as int, oracle_micro as int);
            }
            scaled / oracle_micro
        },
    };
    if cap > u64::MAX as u128 {
        u64::MAX
    } else {
        cap as u64
    }
}

/// What a side spends above the operator's floor.
pub open spec fn spendable(side: Side, balances: Balances, cfg: KeeperConfig) -> int {
    let (balance, floor) = match side {
        Side::SellBtc => (balances.lo as int, cfg.btc_floor_msat as int),
        Side::BuyBtc => (balances.hi as int, cfg.usdt_floor_micros as int),
    };
    if balance >= floor {
        balance - floor
    } else {
        0
    }
}

/// The correction once the size cap and the inventory floor have cut it down.
pub open spec fn clamped(
    side: Side,
    size: u64,
    oracle_micro: u128,
    balances: Balances,
    cfg: KeeperConfig,
) -> u64 {
    let capped = crate::math::min_int(
        size as int,
        trade_cap(side, cfg.max_trade_micro_usd, oracle_micro),
    );
    crate::math::min_int(capped, spendable(side, balances, cfg)) as u64
}

/// What a correction in one direction comes to, given the largest size that
/// does not overshoot.
pub open spec fn sized_decision(
    side: Side,
    size: u64,
    deviation: i128,
    pool: PoolState,
    min_swap_in: MinSwapIn,
    oracle_micro: u128,
    balances: Balances,
    cfg: KeeperConfig,
) -> Decision {
    let (unit_in, unit_out, min_in) = match side {
        Side::SellBtc => (pool.unit_lo, pool.unit_hi, min_swap_in.lo),
        Side::BuyBtc => (pool.unit_hi, pool.unit_lo, min_swap_in.hi),
    };
    let (reserve_in, reserve_out) = side_reserves(side, pool);
    let amount_in = clamped(side, size, oracle_micro, balances, cfg);
    if size == 0 {
        Decision::Hold(HoldReason::NoSizeAvailable { dev_bps: deviation })
    } else if amount_in < min_in {
        Decision::Hold(
            HoldReason::BelowMinSwapIn { unit_in, amount_in, min_swap_in: min_in },
        )
    } else if swap_outcome(reserve_in, reserve_out, amount_in, pool.fee_per_mille) is Err {
        Decision::Hold(HoldReason::OutputRoundsToZero { unit_in, amount_in })
    } else {
        Decision::Trade { unit_in, unit_out, amount_in }
    }
}

/// The hold that comes before any sizing, or the side to trade on and the
/// deviation that calls for it.
pub open spec fn direction(pool: PoolState, oracle_micro: u128, cfg: KeeperConfig) -> Result<
    (Side, i128),
    HoldReason,
> {
    if pool.reserve_lo == 0 && pool.reserve_hi == 0 {
        Err(HoldReason::EmptyPool)
    } else if pool.reserve_lo == 0 || pool.reserve_hi == 0 {
        Err(
            HoldReason::ZeroReserve { reserve_lo: pool.reserve_lo, reserve_hi: pool.reserve_hi },
        )
    } else if cfg.band_bps < pool.fee_per_mille * 10 {
        Err(
            HoldReason::BandBelowFee { band_bps: cfg.band_bps, fee_per_mille: pool.fee_per_mille },
        )
    } else {
        match deviation_bps(pool.reserve_lo as int, pool.reserve_hi as int, oracle_micro as int) {
            None => Err(HoldReason::Unpriceable),
            Some(deviation) => if deviation > cfg.band_bps {
                Ok((Side::SellBtc, deviation))
            } else if deviation < -(cfg.band_bps as int) {
                Ok((Side::BuyBtc, deviation))
            } else {
                Err(HoldReason::InBand { dev_bps: deviation })
            },
        }
    }
}

/// The whole policy: hold for a reason, or make the largest correction that the
/// clamps allow.
pub open spec fn decision(
    pool: PoolState,
    min_swap_in: MinSwapIn,
    oracle_micro: u128,
    balances: Balances,
    cfg: KeeperConfig,
) -> Decision {
    match direction(pool, oracle_micro, cfg) {
        Err(reason) => Decision::Hold(reason),
        Ok((side, deviation)) => sized_decision(
            side,
            largest_size(side, pool, oracle_micro),
            deviation,
            pool,
            min_swap_in,
            oracle_micro,
            balances,
            cfg,
        ),
    }
}

/// Decides one tick from the pool, the oracle price, the balances and the
/// settings.
pub fn decide(
    pool: &PoolState,
    min_swap_in: MinSwapIn,
    oracle_micro: u128,
    balances: Balances,
    cfg: &KeeperConfig,
) -> (r: Decision)
    ensures
        r == decision(*pool, min_swap_in, oracle_micro, balances, *cfg),
{
    if pool.reserve_lo == 0 && pool.reserve_hi == 0 {
        return Decision::Hold(HoldReason::EmptyPool);
    }
    if pool.reserve_lo == 0 || pool.reserve_hi == 0 {
        return Decision::Hold(
            HoldReason::ZeroReserve { reserve_lo: pool.reserve_lo, reserve_hi: pool.reserve_hi },
        );
    }
    if let Err(error) = check_band_exceeds_fee(cfg.band_bps, pool.fee_per_mille) {
        return Decision::Hold(
            HoldReason::BandBelowFee {
                band_bps: error.band_bps,
                fee_per_mille: error.fee_per_mille,
            },
        );
    }
    let deviation: i128 = match dev_bps(pool.reserve_lo, pool.reserve_hi, oracle_micro) {
        Some(deviation) => deviation,
        None => return Decision::Hold(HoldReason::Unpriceable),
    };
    let band: i128 = cfg.band_bps as i128;
    let side = if deviation > band {
        Side::SellBtc
    } else if deviation < -band {
        Side::BuyBtc
    } else {
        return Decision::Hold(HoldReason::InBand { dev_bps: deviation });
    };
    let (unit_in, unit_out) = match side {
        Side::SellBtc => (pool.unit_lo, pool.unit_hi),
        Side::BuyBtc => (pool.unit_hi, pool.unit_lo),
    };
    let (reserve_in, reserve_out) = reserves_for(side, pool);
    let (floor, balance, min_in) = match side {
        Side::SellBtc => (cfg.btc_floor_msat, balances.lo, min_swap_in.lo),
        Side::BuyBtc => (cfg.usdt_floor_micros, balances.hi, min_swap_in.hi),
    };
    let size: u64 = largest_non_crossing(side, pool, oracle_micro);
    assert(comparable(side, *pool, oracle_micro));
    if size == 0 {
        return Decision::Hold(HoldReason::NoSizeAvailable { dev_bps: deviation });
    }
    let cap: u64 = max_trade_cap(side, cfg.max_trade_micro_usd, oracle_micro);
    let above_floor: u64 = balance.saturating_sub(floor);
    let mut amount_in: u64 = size;
    if cap < amount_in {
        amount_in = cap;
    }
    if above_floor < amount_in {
        amount_in = above_floor;
    }
    assert(amount_in == clamped(side, size, oracle_micro, balances, *cfg));
    if amount_in < min_in {
        return Decision::Hold(
            HoldReason::BelowMinSwapIn { unit_in, amount_in, min_swap_in: min_in },
        );
    }
    if amount_out(reserve_in, reserve_out, amount_in, pool.fee_per_mille).is_err() {
        return Decision::Hold(HoldReason::OutputRoundsToZero { unit_in, amount_in });
    }
    Decision::Trade { unit_in, unit_out, amount_in }
}

/// The reserves, low unit first, that spending `amount_in` of `unit_in` leaves;
/// none where the pool does not trade the unit or refuses the swap.
pub open spec fn trade_result(pool: PoolState, unit_in: AmountUnit, amount_in: u64) -> Option<
    (u64, u64),
> {
    if unit_in != pool.unit_lo && unit_in != pool.unit_hi {
        None
    } else {
        let side = if unit_in == pool.unit_lo {
            Side::SellBtc
        } else {
            Side::BuyBtc
        };
        let (reserve_in, reserve_out) = side_reserves(side, pool);
        match swap_outcome(reserve_in, reserve_out, amount_in, pool.fee_per_mille) {
            Err(_) => None,
            Ok(out) => {
                let (lo, hi) = reserves_after(side, pool, amount_in as int, out as int);
                Some((lo as u64, hi as u64))
            },
        }
    }
}

/// The reserves a trade would leave behind.
pub fn apply_trade(pool: &PoolState, unit_in: AmountUnit, amount_in: u64) -> (r: Option<(u64, u64)>)
    ensures
        r == trade_result(*pool, unit_in, amount_in),
{
    let side = if unit_in == pool.unit_lo {
        Side::SellBtc
    } else if unit_in == pool.unit_hi {
        Side::BuyBtc
    } else {
        return None;
    };
    let (reserve_in, reserve_out) = reserves_for(side, pool);
    let out: u64 = match amount_out(reserve_in, reserve_out, amount_in, pool.fee_per_mille) {
        Ok(out) => out,
        Err(_) => return None,
    };
    let reserve_in_new: u64 = reserve_in + amount_in;
    let reserve_out_new: u64 = reserve_out - out;
    Some(
        match side {
            Side::SellBtc => (reserve_in_new, reserve_out_new),
            Side::BuyBtc => (reserve_out_new, reserve_in_new),
        },
    )
}

} // verus!
