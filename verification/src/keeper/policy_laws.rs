//! What a decided trade does to the pool.

use vstd::prelude::*;

use crate::keeper::policy::{
    clamped, comparable, crosses, decision, deviation_bps, direction, is_largest_non_crossing,
    largest_size, law_crossing_is_monotone, lemma_largest_exists, side_reserves, size_limit,
    spendable, trade_cap, trade_result, Balances, Decision, HoldReason, KeeperConfig, MinSwapIn,
    PoolState, Side, BPS, DECIMAL_GAP,
};
use crate::math::{
    lemma_curve_out_below_reserve, lemma_quotient, swap_outcome, CurveError, MAX_RESERVE,
};
use crate::math_laws::law_swap_never_drains_and_never_overflows;
use crate::units::AmountUnit;

verus! {

/// A decided trade spends the unit that the sign of the deviation names, is no
/// larger than the size cap, leaves the inventory floor alone, clears the
/// pool's dust threshold, and settles.
pub proof fn law_a_trade_respects_every_clamp(
    pool: PoolState,
    min_swap_in: MinSwapIn,
    oracle_micro: u128,
    balances: Balances,
    cfg: KeeperConfig,
)
    requires
        pool.unit_lo != pool.unit_hi,
    ensures
        decision(pool, min_swap_in, oracle_micro, balances, cfg) matches Decision::Trade {
            unit_in,
            unit_out,
            amount_in,
        } ==> {
            let side = if unit_in == pool.unit_lo {
                Side::SellBtc
            } else {
                Side::BuyBtc
            };
            let deviation = deviation_bps(
                pool.reserve_lo as int,
                pool.reserve_hi as int,
                oracle_micro as int,
            );
            &&& deviation is Some
            &&& side == Side::SellBtc ==> {
                &&& deviation->0 > cfg.band_bps
                &&& unit_out == pool.unit_hi
                &&& amount_in >= min_swap_in.lo
            }
            &&& side == Side::BuyBtc ==> {
                &&& deviation->0 < -(cfg.band_bps as int)
                &&& unit_in == pool.unit_hi
                &&& unit_out == pool.unit_lo
                &&& amount_in >= min_swap_in.hi
            }
            &&& amount_in <= trade_cap(side, cfg.max_trade_micro_usd, oracle_micro)
            &&& amount_in <= spendable(side, balances, cfg)
            &&& trade_result(pool, unit_in, amount_in) is Some
        },
{
}

/// A decided trade moves the price toward the oracle and never past it: the
/// bitcoin side of the pool grows when the pool was dear and shrinks when it
/// was cheap, and the price it lands on is still on the side it came from.
pub proof fn law_a_trade_never_passes_the_oracle(
    pool: PoolState,
    min_swap_in: MinSwapIn,
    oracle_micro: u128,
    balances: Balances,
    cfg: KeeperConfig,
)
    requires
        pool.unit_lo != pool.unit_hi,
    ensures
        decision(pool, min_swap_in, oracle_micro, balances, cfg) matches Decision::Trade {
            unit_in,
            unit_out,
            amount_in,
        } ==> (trade_result(pool, unit_in, amount_in) matches Some((lo, hi)) ==> {
            if unit_in == pool.unit_lo {
                &&& lo > pool.reserve_lo
                &&& hi < pool.reserve_hi
                &&& hi * DECIMAL_GAP >= lo * oracle_micro
            } else {
                &&& lo < pool.reserve_lo
                &&& hi > pool.reserve_hi
                &&& hi * DECIMAL_GAP <= lo * oracle_micro
            }
        }),
{
    if let Decision::Trade { unit_in, unit_out, amount_in } = decision(
        pool,
        min_swap_in,
        oracle_micro,
        balances,
        cfg,
    ) {
        let (side, deviation) = direction(pool, oracle_micro, cfg)->Ok_0;
        let size = largest_size(side, pool, oracle_micro);
        lemma_largest_exists(side, pool, oracle_micro);
        assert(is_largest_non_crossing(side, pool, oracle_micro, size));
        assert(amount_in <= size);
        if crosses(side, pool, amount_in, oracle_micro) {
            law_crossing_is_monotone(side, pool, oracle_micro, amount_in, size);
        }
        let (reserve_in, reserve_out) = side_reserves(side, pool);
        lemma_curve_out_below_reserve(
            reserve_in as int,
            reserve_out as int,
            amount_in as int,
            pool.fee_per_mille as int,
        );
    }
}

/// A decided trade leaves a deviation of the same sign, or none, and a smaller
/// one or one as large, wherever the one it leaves can be computed. Of a
/// deviation below zero whose computation saturates, only the sign is claimed.
pub proof fn law_a_trade_never_widens_the_deviation(
    pool: PoolState,
    min_swap_in: MinSwapIn,
    oracle_micro: u128,
    balances: Balances,
    cfg: KeeperConfig,
)
    requires
        pool.unit_lo != pool.unit_hi,
    ensures
        decision(pool, min_swap_in, oracle_micro, balances, cfg) matches Decision::Trade {
            unit_in,
            unit_out,
            amount_in,
        } ==> (trade_result(pool, unit_in, amount_in) matches Some((lo, hi)) ==> {
            let before = deviation_bps(
                pool.reserve_lo as int,
                pool.reserve_hi as int,
                oracle_micro as int,
            );
            let after = deviation_bps(lo as int, hi as int, oracle_micro as int);
            &&& before is Some
            &&& before->0 != 0
            &&& after is None <==> lo * oracle_micro > i128::MAX
            &&& after matches Some(left) ==> {
                &&& before->0 > 0 ==> 0 <= left <= before->0
                &&& before->0 < 0 ==> left <= 0
                &&& before->0 < 0 && (pool.reserve_hi * DECIMAL_GAP - pool.reserve_lo
                    * oracle_micro) * BPS >= i128::MIN ==> before->0 <= left
            }
        }),
{
    if let Decision::Trade { unit_in, unit_out, amount_in } = decision(
        pool,
        min_swap_in,
        oracle_micro,
        balances,
        cfg,
    ) {
        law_a_trade_never_passes_the_oracle(pool, min_swap_in, oracle_micro, balances, cfg);
        let (side, deviation) = direction(pool, oracle_micro, cfg)->Ok_0;
        let (reserve_in, reserve_out) = side_reserves(side, pool);
        lemma_largest_exists(side, pool, oracle_micro);
        lemma_curve_out_below_reserve(
            reserve_in as int,
            reserve_out as int,
            amount_in as int,
            pool.fee_per_mille as int,
        );
        if let Some((lo, hi)) = trade_result(pool, unit_in, amount_in) {
            let p = oracle_micro as int;
            let d = pool.reserve_lo * p;
            let e = lo * p;
            let g = pool.reserve_hi * DECIMAL_GAP;
            let h = hi * DECIMAL_GAP;
            assert(p > 0) by (nonlinear_arith)
                requires
                    d == pool.reserve_lo * p,
                    d != 0,
                    p >= 0,
            ;
            assert(0 < e) by (nonlinear_arith)
                requires
                    e == lo * p,
                    0 < lo,
                    p > 0,
            ;
            match side {
                Side::SellBtc => {
                    assert(d <= e) by (nonlinear_arith)
                        requires
                            d == pool.reserve_lo * p,
                            e == lo * p,
                            pool.reserve_lo <= lo,
                            p > 0,
                    ;
                    lemma_quotients_ordered((h - e) * BPS, e, (g - d) * BPS, d);
                },
                Side::BuyBtc => {
                    assert(e <= d) by (nonlinear_arith)
                        requires
                            d == pool.reserve_lo * p,
                            e == lo * p,
                            lo <= pool.reserve_lo,
                            p > 0,
                    ;
                    assert(((e - h) * BPS) * d <= ((d - g) * BPS) * e) by (nonlinear_arith)
                        requires
                            0 <= e <= d,
                            0 <= g <= h,
                    ;
                    lemma_quotients_cross((e - h) * BPS, e, (d - g) * BPS, d);
                    assert(e - h <= d - g);
                    let limit = -(i128::MIN as int);
                    lemma_quotient(limit, d);
                    lemma_quotient(limit, e);
                },
            }
            lemma_quotient(if g >= d { (g - d) * BPS } else { (d - g) * BPS }, d);
            lemma_quotient(if h >= e { (h - e) * BPS } else { (e - h) * BPS }, e);
        }
    }
}

/// Whether the keeper may put in `x`, of bitcoin where `sell` and of dollars
/// otherwise: nothing at all is always allowed. Otherwise the pool takes it and
/// has room for it, what is left stays at or above the floor, it is worth no more
/// than the cap at the oracle's price, and what it pays out, if anything, leaves
/// the pool's price at the oracle's or short of it.
pub open spec fn may_put_in(
    sell: bool,
    pool: PoolState,
    oracle: int,
    balances: Balances,
    cfg: KeeperConfig,
    x: int,
) -> bool {
    let lo = pool.reserve_lo as int;
    let hi = pool.reserve_hi as int;
    let kept = x * (1000 - pool.fee_per_mille);
    x == 0 || {
        &&& lo <= MAX_RESERVE && hi <= MAX_RESERVE && pool.fee_per_mille < 1000
        &&& if sell {
            let out = (kept * hi) / (lo * 1000 + kept);
            &&& lo + x <= MAX_RESERVE
            &&& x + cfg.btc_floor_msat <= balances.lo
            &&& x * oracle <= cfg.max_trade_micro_usd * 100_000_000_000
            &&& x * oracle <= u128::MAX
            &&& out == 0 || ((lo + x) * oracle <= u128::MAX && (hi - out) * 100_000_000_000 >= (lo
                + x) * oracle)
        } else {
            let out = (kept * lo) / (hi * 1000 + kept);
            &&& hi + x <= MAX_RESERVE
            &&& x + cfg.usdt_floor_micros <= balances.hi
            &&& x <= cfg.max_trade_micro_usd
            &&& out == 0 || ((lo - out) * oracle <= u128::MAX && (hi + x) * 100_000_000_000 <= (lo
                - out) * oracle)
        }
    }
}

/// What the keeper puts in is the most it may: it may put in that much, and not
/// one unit more. That holds of a trade, and of the two holds that name an
/// amount which turned out too small.
pub proof fn law_what_is_put_in_is_the_most_allowed(
    pool: PoolState,
    min_swap_in: MinSwapIn,
    oracle_micro: u128,
    balances: Balances,
    cfg: KeeperConfig,
)
    requires
        pool.unit_lo != pool.unit_hi,
    ensures
        match decision(pool, min_swap_in, oracle_micro, balances, cfg) {
            Decision::Trade { unit_in, unit_out, amount_in } => {
                let sell = unit_in == pool.unit_lo;
                &&& unit_in == pool.unit_lo && unit_out == pool.unit_hi || unit_in == pool.unit_hi
                    && unit_out == pool.unit_lo
                &&& amount_in > 0
                &&& amount_in >= (if sell {
                    min_swap_in.lo
                } else {
                    min_swap_in.hi
                })
                &&& if sell {
                    swap_outcome(
                        pool.reserve_lo,
                        pool.reserve_hi,
                        amount_in,
                        pool.fee_per_mille,
                    ) is Ok
                } else {
                    swap_outcome(
                        pool.reserve_hi,
                        pool.reserve_lo,
                        amount_in,
                        pool.fee_per_mille,
                    ) is Ok
                }
                &&& may_put_in(sell, pool, oracle_micro as int, balances, cfg, amount_in as int)
                &&& !may_put_in(sell, pool, oracle_micro as int, balances, cfg, amount_in + 1)
            },
            Decision::Hold(HoldReason::BelowMinSwapIn { unit_in, amount_in, min_swap_in: least }) => {
                let sell = unit_in == pool.unit_lo;
                &&& unit_in == pool.unit_lo || unit_in == pool.unit_hi
                &&& amount_in < least
                &&& least == (if sell {
                    min_swap_in.lo
                } else {
                    min_swap_in.hi
                })
                &&& may_put_in(sell, pool, oracle_micro as int, balances, cfg, amount_in as int)
                &&& !may_put_in(sell, pool, oracle_micro as int, balances, cfg, amount_in + 1)
            },
            Decision::Hold(HoldReason::OutputRoundsToZero { unit_in, amount_in }) => {
                let sell = unit_in == pool.unit_lo;
                let kept = amount_in * (1000 - pool.fee_per_mille);
                &&& unit_in == pool.unit_lo || unit_in == pool.unit_hi
                &&& amount_in >= (if sell {
                    min_swap_in.lo
                } else {
                    min_swap_in.hi
                })
                &&& if sell {
                    (kept * pool.reserve_hi) / (pool.reserve_lo * 1000 + kept) == 0
                } else {
                    (kept * pool.reserve_lo) / (pool.reserve_hi * 1000 + kept) == 0
                }
                &&& may_put_in(sell, pool, oracle_micro as int, balances, cfg, amount_in as int)
                &&& !may_put_in(sell, pool, oracle_micro as int, balances, cfg, amount_in + 1)
            },
            // Not one unit fits between the pool's price and the oracle's.
            Decision::Hold(HoldReason::NoSizeAvailable { dev_bps }) => !may_put_in(
                dev_bps > 0,
                pool,
                oracle_micro as int,
                balances,
                cfg,
                1,
            ),
            _ => true,
        },
{
    if let Ok((side, deviation)) = direction(pool, oracle_micro, cfg) {
        let size = largest_size(side, pool, oracle_micro);
        lemma_largest_exists(side, pool, oracle_micro);
        assert(comparable(side, pool, oracle_micro));
        assert(is_largest_non_crossing(side, pool, oracle_micro, size));
        if size == 0 {
            let (reserve_in, reserve_out) = side_reserves(side, pool);
            if size_limit(side, pool) >= 1 && reserve_out <= MAX_RESERVE && pool.fee_per_mille
                < 1000 {
                assert(crosses(side, pool, 1, oracle_micro));
                lemma_swap_in_numbers(reserve_in, reserve_out, 1, pool.fee_per_mille);
            }
        }
        if size > 0 {
            let amount_in = clamped(side, size, oracle_micro, balances, cfg);
            lemma_clamped_is_the_most(side, pool, oracle_micro, balances, cfg, size, amount_in);
            let (reserve_in, reserve_out) = side_reserves(side, pool);
            assert(!crosses(side, pool, size, oracle_micro));
            if amount_in > 0 {
                lemma_swap_in_numbers(reserve_in, reserve_out, amount_in, pool.fee_per_mille);
            } else {
                let kept = amount_in * (1000 - pool.fee_per_mille);
                assert(kept == 0 && kept * reserve_out == 0) by (nonlinear_arith)
                    requires
                        kept == amount_in * (1000 - pool.fee_per_mille),
                        amount_in == 0,
                ;
                lemma_quotient(0, reserve_in * 1000 + kept);
            }
        }
    }
}

/// The clamped size is the most that may be put in.
proof fn lemma_clamped_is_the_most(
    side: Side,
    pool: PoolState,
    oracle_micro: u128,
    balances: Balances,
    cfg: KeeperConfig,
    size: u64,
    amount_in: u64,
)
    requires
        pool.reserve_lo > 0,
        pool.reserve_hi > 0,
        oracle_micro > 0,
        comparable(side, pool, oracle_micro),
        is_largest_non_crossing(side, pool, oracle_micro, size),
        size > 0,
        amount_in == clamped(side, size, oracle_micro, balances, cfg),
    ensures
        ({
            let sell = side == Side::SellBtc;
            &&& may_put_in(sell, pool, oracle_micro as int, balances, cfg, amount_in as int)
            &&& !may_put_in(sell, pool, oracle_micro as int, balances, cfg, amount_in + 1)
        }),
{
    let p = oracle_micro as int;
    let sell = side == Side::SellBtc;
    let next = amount_in + 1;
    let (reserve_in, reserve_out) = side_reserves(side, pool);
    assert(amount_in <= size);
    if crosses(side, pool, amount_in, oracle_micro) {
        law_crossing_is_monotone(side, pool, oracle_micro, amount_in, size);
    }
    let cap = trade_cap(side, cfg.max_trade_micro_usd, oracle_micro);
    if sell {
        let scaled = cfg.max_trade_micro_usd * DECIMAL_GAP;
        let least = if scaled > u128::MAX {
            u128::MAX as int
        } else {
            scaled
        };
        lemma_quotient(least, p);
        let q = least / p;
        assert(amount_in * p <= least) by (nonlinear_arith)
            requires
                amount_in <= q,
                q * p <= least,
                p > 0,
        ;
        if amount_in == cap {
            assert(amount_in == q);
            assert(next * p > least) by (nonlinear_arith)
                requires
                    least < q * p + p,
                    next == q + 1,
            ;
        }
    }
    if amount_in > 0 {
        assert(!crosses(side, pool, amount_in, oracle_micro));
        lemma_swap_in_numbers(reserve_in, reserve_out, amount_in, pool.fee_per_mille);
        assert(may_put_in(sell, pool, p, balances, cfg, amount_in as int));
    }
    assert(amount_in == size || amount_in == cap || amount_in == spendable(side, balances, cfg));
    if amount_in == size {
        if next <= size_limit(side, pool) {
            assert(crosses(side, pool, next as u64, oracle_micro));
            lemma_swap_in_numbers(reserve_in, reserve_out, next as u64, pool.fee_per_mille);
        }
        assert(!may_put_in(sell, pool, p, balances, cfg, next));
    } else if amount_in == spendable(side, balances, cfg) {
        assert(!may_put_in(sell, pool, p, balances, cfg, next));
    } else {
        assert(!may_put_in(sell, pool, p, balances, cfg, next));
    }
}

/// What a swap pays, written out.
proof fn lemma_swap_in_numbers(reserve_in: u64, reserve_out: u64, x: u64, fee: u16)
    requires
        0 < reserve_in <= MAX_RESERVE,
        0 < reserve_out <= MAX_RESERVE,
        0 < x <= MAX_RESERVE,
        fee < 1000,
    ensures
        ({
            let kept = x * (1000 - fee);
            let out = (kept * reserve_out) / (reserve_in * 1000 + kept);
            &&& 0 <= out < reserve_out
            &&& swap_outcome(reserve_in, reserve_out, x, fee) == (if out == 0 {
                Err::<u64, CurveError>(CurveError::OutputRoundsToZero)
            } else {
                Ok::<u64, CurveError>(out as u64)
            })
        }),
{
    lemma_curve_out_below_reserve(
        reserve_in as int,
        reserve_out as int,
        x as int,
        fee as int,
    );
}

/// Which way a correction goes, and which hold comes before any sizing, in plain
/// numbers: `above` is how far the pool's side of the comparison lies above the
/// oracle's. A correction is due once that, in units of a ten-thousandth of the
/// oracle's side, exceeds the band by a whole unit.
pub proof fn law_a_correction_is_due_outside_the_band_only(
    pool: PoolState,
    min_swap_in: MinSwapIn,
    oracle_micro: u128,
    balances: Balances,
    cfg: KeeperConfig,
)
    requires
        pool.unit_lo != pool.unit_hi,
    ensures
        ({
            let decided = decision(pool, min_swap_in, oracle_micro, balances, cfg);
            let empty_lo = pool.reserve_lo == 0;
            let empty_hi = pool.reserve_hi == 0;
            let oracle_side = pool.reserve_lo * oracle_micro;
            let above = pool.reserve_hi * 100_000_000_000 - oracle_side;
            let due = (cfg.band_bps + 1) * oracle_side;
            let priced = !empty_lo && !empty_hi && cfg.band_bps >= pool.fee_per_mille * 10
                && oracle_micro > 0 && oracle_side <= i128::MAX;
            let dear = above * 10_000 >= due;
            // Below zero the product is taken no further than a signed number goes.
            let cheap = -above * 10_000 >= due && -(i128::MIN as int) >= due;
            &&& decided == Decision::Hold(HoldReason::EmptyPool) <==> empty_lo && empty_hi
            &&& (decided matches Decision::Hold(HoldReason::ZeroReserve { .. })) <==> empty_lo
                != empty_hi
            &&& (decided matches Decision::Hold(HoldReason::BandBelowFee { .. })) <==> !empty_lo
                && !empty_hi && cfg.band_bps < pool.fee_per_mille * 10
            &&& decided == Decision::Hold(HoldReason::Unpriceable) <==> !empty_lo && !empty_hi
                && cfg.band_bps >= pool.fee_per_mille * 10 && (oracle_micro == 0 || oracle_side
                > i128::MAX)
            &&& (decided matches Decision::Hold(HoldReason::InBand { .. })) <==> priced && !dear
                && !cheap
            &&& decided matches Decision::Trade { unit_in, .. } ==> priced && (if unit_in
                == pool.unit_lo {
                dear
            } else {
                cheap
            })
            &&& decided matches Decision::Hold(HoldReason::NoSizeAvailable { .. }) ==> priced && (
            dear || cheap)
        }),
{
    let oracle_side = pool.reserve_lo * oracle_micro;
    let above = pool.reserve_hi * DECIMAL_GAP - oracle_side;
    assert(oracle_side == 0 <==> (pool.reserve_lo == 0 || oracle_micro == 0)) by (nonlinear_arith)
        requires
            oracle_side == pool.reserve_lo * oracle_micro,
    ;
    if oracle_side > 0 && oracle_side <= i128::MAX {
        let band = cfg.band_bps as int;
        let due = (band + 1) * oracle_side;
        if above >= 0 {
            lemma_reaches(above * BPS, oracle_side, band + 1);
        } else {
            let limit = -(i128::MIN as int);
            let scaled = if -above * BPS > limit {
                limit
            } else {
                -above * BPS
            };
            lemma_reaches(scaled, oracle_side, band + 1);
        }
        assert(due > 0) by (nonlinear_arith)
            requires
                due == (band + 1) * oracle_side,
                band >= 0,
                oracle_side > 0,
        ;
    }
}

/// The deviation in plain numbers: as many whole ten-thousandths of the oracle's
/// side as the pool's side lies above it, or below it with a minus sign. There is
/// one unless the oracle's side is zero or beyond a signed number.
pub proof fn law_deviation_counts_whole_basis_points(
    reserve_lo: u64,
    reserve_hi: u64,
    oracle_micro: u128,
)
    ensures
        ({
            let oracle_side = reserve_lo * oracle_micro;
            let pool_side = reserve_hi * 100_000_000_000;
            match deviation_bps(reserve_lo as int, reserve_hi as int, oracle_micro as int) {
                None => oracle_side == 0 || oracle_side > i128::MAX,
                Some(dev) => {
                    &&& 0 < oracle_side <= i128::MAX
                    &&& pool_side >= oracle_side ==> dev >= 0 && dev * oracle_side <= (pool_side
                        - oracle_side) * 10_000 < (dev + 1) * oracle_side
                    &&& pool_side < oracle_side && (oracle_side - pool_side) * 10_000 <= i128::MAX
                        ==> dev <= 0 && -dev * oracle_side <= (oracle_side - pool_side) * 10_000 < (
                    1 - dev) * oracle_side
                    &&& pool_side < oracle_side ==> dev <= 0
                },
            }
        }),
{
    let os = reserve_lo * oracle_micro;
    assert(os >= 0) by (nonlinear_arith)
        requires
            os == reserve_lo * oracle_micro,
    ;
    if 0 < os <= i128::MAX {
        let gap = reserve_hi * DECIMAL_GAP - os;
        if gap >= 0 {
            lemma_quotient(gap * BPS, os);
            let q = (gap * BPS) / os;
            assert((q + 1) * os == q * os + os) by (nonlinear_arith);
        } else {
            let scaled = if -gap * BPS > -(i128::MIN as int) {
                -(i128::MIN as int)
            } else {
                -gap * BPS
            };
            lemma_quotient(scaled, os);
            let q = scaled / os;
            assert((1 + q) * os == q * os + os) by (nonlinear_arith);
        }
    }
}

/// A quotient reaches a number exactly where the dividend reaches its multiple.
proof fn lemma_reaches(a: int, b: int, n: int)
    requires
        0 <= a,
        0 < b,
    ensures
        a / b >= n <==> a >= n * b,
{
    lemma_quotient(a, b);
    let q = a / b;
    if q >= n {
        assert(n * b <= q * b) by (nonlinear_arith)
            requires
                n <= q,
                0 < b,
        ;
    } else {
        assert(q * b + b <= n * b) by (nonlinear_arith)
            requires
                q + 1 <= n,
                0 < b,
        ;
    }
}

/// A smaller numerator over a larger denominator.
proof fn lemma_quotients_ordered(a: int, b: int, c: int, d: int)
    requires
        0 <= a <= c,
        0 < d <= b,
    ensures
        0 <= a / b <= c / d,
{
    lemma_quotient(a, b);
    lemma_quotient(c, d);
    assert(a * d <= c * b) by (nonlinear_arith)
        requires
            0 <= a <= c,
            0 < d <= b,
    ;
    lemma_quotients_cross(a, b, c, d);
}

/// The smaller of two fractions has the smaller whole part.
proof fn lemma_quotients_cross(a: int, b: int, c: int, d: int)
    requires
        0 <= a,
        0 <= c,
        0 < b,
        0 < d,
        a * d <= c * b,
    ensures
        0 <= a / b <= c / d,
{
    lemma_quotient(a, b);
    lemma_quotient(c, d);
    let q = a / b;
    let r = c / d;
    if r < q {
        assert(c * b < q * d * b) by (nonlinear_arith)
            requires
                c < r * d + d,
                r + 1 <= q,
                0 < b,
                0 < d,
        ;
        assert(q * d * b <= a * d) by (nonlinear_arith)
            requires
                q * b <= a,
                0 < d,
        ;
    }
}

/// What a trade leaves of the reserves: what is put in is added on its side, what
/// the curve pays for it is taken from the other. Nothing comes of a unit that the
/// pool does not trade, or of a swap that the curve refuses.
pub proof fn law_a_trade_leaves_what_it_says(pool: PoolState, unit_in: AmountUnit, amount_in: u64)
    requires
        pool.unit_lo != pool.unit_hi,
    ensures
        ({
            let sell = swap_outcome(
                pool.reserve_lo,
                pool.reserve_hi,
                amount_in,
                pool.fee_per_mille,
            );
            let buy = swap_outcome(
                pool.reserve_hi,
                pool.reserve_lo,
                amount_in,
                pool.fee_per_mille,
            );
            match trade_result(pool, unit_in, amount_in) {
                Some((lo, hi)) => {
                    ||| unit_in == pool.unit_lo && (sell matches Ok(out) && lo == pool.reserve_lo
                        + amount_in && hi == pool.reserve_hi - out)
                    ||| unit_in == pool.unit_hi && (buy matches Ok(out) && hi == pool.reserve_hi
                        + amount_in && lo == pool.reserve_lo - out)
                },
                None => {
                    ||| unit_in != pool.unit_lo && unit_in != pool.unit_hi
                    ||| unit_in == pool.unit_lo && sell is Err
                    ||| unit_in == pool.unit_hi && buy is Err
                },
            }
        }),
{
    law_swap_never_drains_and_never_overflows(
        pool.reserve_lo,
        pool.reserve_hi,
        amount_in,
        pool.fee_per_mille,
    );
    law_swap_never_drains_and_never_overflows(
        pool.reserve_hi,
        pool.reserve_lo,
        amount_in,
        pool.fee_per_mille,
    );
}

} // verus!
