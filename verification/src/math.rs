//! Constant-product curve arithmetic.
//!
//! Everything is integer arithmetic over `u64` values with `u128`
//! intermediates. The specification functions below state the curve over
//! mathematical integers; each executable function is tied to one of them, and
//! the laws at the end of the file are stated over the same functions.

use vstd::prelude::*;

verus! {

/// Upper bound on any reserve or swap input: `2^58`.
///
/// The largest intermediate of the curve is `1000 * amount_in * reserve_out`,
/// and `1000 * 2^116 < 2^126` leaves two bits of headroom in a `u128`.
pub const MAX_RESERVE: u64 = 0x400_0000_0000_0000;

/// Shares permanently set aside when a pool is created.
pub const MINIMUM_LIQUIDITY: u64 = 1000;

/// Why the curve refuses an operation.
#[derive(Debug, Clone, Copy, PartialEq, Eq, Structural)]
pub enum CurveError {
    ZeroAmount,
    ZeroReserve,
    ReserveCapExceeded,
    InvalidFee,
    OutputRoundsToZero,
    InsufficientLiquidity,
    InsufficientInitialLiquidity,
    InsufficientShares,
    Overflow,
}

impl CurveError {
    /// The text shown for each error.
    pub open spec fn text(self) -> Seq<char> {
        match self {
            CurveError::ZeroAmount => "amount must be non-zero"@,
            CurveError::ZeroReserve => "reserves must be non-zero"@,
            CurveError::ReserveCapExceeded => "value exceeds MAX_RESERVE"@,
            CurveError::InvalidFee => "fee_per_mille must be < 1000"@,
            CurveError::OutputRoundsToZero => "output rounds to zero"@,
            CurveError::InsufficientLiquidity => "pool has insufficient liquidity"@,
            CurveError::InsufficientInitialLiquidity =>
                "initial liquidity must exceed MINIMUM_LIQUIDITY"@,
            CurveError::InsufficientShares => "not enough shares"@,
            CurveError::Overflow => "arithmetic overflow"@,
        }
    }

    /// The error as a human-readable line.
    pub fn message(self) -> (r: &'static str)
        ensures
            r@ == self.text(),
    {
        match self {
            CurveError::ZeroAmount => "amount must be non-zero",
            CurveError::ZeroReserve => "reserves must be non-zero",
            CurveError::ReserveCapExceeded => "value exceeds MAX_RESERVE",
            CurveError::InvalidFee => "fee_per_mille must be < 1000",
            CurveError::OutputRoundsToZero => "output rounds to zero",
            CurveError::InsufficientLiquidity => "pool has insufficient liquidity",
            CurveError::InsufficientInitialLiquidity =>
                "initial liquidity must exceed MINIMUM_LIQUIDITY",
            CurveError::InsufficientShares => "not enough shares",
            CurveError::Overflow => "arithmetic overflow",
        }
    }
}

/// What the curve pays for `amount_in`, rounded down: the input, less the fee,
/// weighed against both reserves.
pub open spec fn curve_out(reserve_in: int, reserve_out: int, amount_in: int, fee: int) -> int {
    (amount_in * (1000 - fee) * reserve_out) / (reserve_in * 1000 + amount_in * (1000 - fee))
}

/// The outcome of a swap of `amount_in` against the two reserves.
pub open spec fn swap_outcome(
    reserve_in: u64,
    reserve_out: u64,
    amount_in: u64,
    fee_per_mille: u16,
) -> Result<u64, CurveError> {
    if amount_in == 0 {
        Err(CurveError::ZeroAmount)
    } else if reserve_in == 0 || reserve_out == 0 {
        Err(CurveError::ZeroReserve)
    } else if amount_in > MAX_RESERVE || reserve_in > MAX_RESERVE || reserve_out > MAX_RESERVE {
        Err(CurveError::ReserveCapExceeded)
    } else if fee_per_mille >= 1000 {
        Err(CurveError::InvalidFee)
    } else {
        let out = curve_out(
            reserve_in as int,
            reserve_out as int,
            amount_in as int,
            fee_per_mille as int,
        );
        if out == 0 {
            Err(CurveError::OutputRoundsToZero)
        } else {
            Ok(out as u64)
        }
    }
}

/// `a / b` lies where a quotient lies: `q * b <= a < (q + 1) * b`.
pub proof fn lemma_quotient(a: int, b: int)
    requires
        0 <= a,
        0 < b,
    ensures
        0 <= a / b,
        (a / b) * b <= a,
        a < (a / b) * b + b,
        a / b <= a,
{
    assert(0 <= a / b && (a / b) * b <= a && a < (a / b) * b + b && a / b <= a) by (nonlinear_arith)
        requires
            0 <= a,
            0 < b,
    ;
}

/// A product of bounded factors is bounded.
pub proof fn lemma_product_bound(a: int, b: int, x: int, y: int)
    requires
        0 <= a <= x,
        0 <= b <= y,
    ensures
        0 <= a * b <= x * y,
{
    assert(0 <= a * b <= x * y) by (nonlinear_arith)
        requires
            0 <= a <= x,
            0 <= b <= y,
    ;
}

/// The curve pays a non-negative amount, less than the whole output reserve.
pub proof fn lemma_curve_out_below_reserve(
    reserve_in: int,
    reserve_out: int,
    amount_in: int,
    fee: int,
)
    requires
        0 < reserve_in,
        0 < reserve_out,
        0 <= amount_in,
        0 <= fee < 1000,
    ensures
        0 <= curve_out(reserve_in, reserve_out, amount_in, fee) < reserve_out,
{
    let a = amount_in * (1000 - fee);
    assert(0 <= a) by (nonlinear_arith)
        requires
            0 <= amount_in,
            0 <= fee < 1000,
            a == amount_in * (1000 - fee),
    ;
    let d = reserve_in * 1000 + a;
    let q = (a * reserve_out) / d;
    assert(0 <= a * reserve_out) by (nonlinear_arith)
        requires
            0 <= a,
            0 < reserve_out,
    ;
    lemma_quotient(a * reserve_out, d);
    assert(q < reserve_out) by (nonlinear_arith)
        requires
            q * d <= a * reserve_out,
            d == reserve_in * 1000 + a,
            0 < reserve_in,
            0 < reserve_out,
            0 <= a,
    ;
}

/// What one swap of `amount_in` pays out, or why it is refused.
///
/// The caller adds the full `amount_in` to `reserve_in`, fee included: nothing
/// collects the fee, it stays in the reserve.
pub fn amount_out(
    reserve_in: u64,
    reserve_out: u64,
    amount_in: u64,
    fee_per_mille: u16,
) -> (r: Result<u64, CurveError>)
    ensures
        r == swap_outcome(reserve_in, reserve_out, amount_in, fee_per_mille),
        r matches Ok(out) ==> 0 < out < reserve_out,
{
    if amount_in == 0 {
        return Err(CurveError::ZeroAmount);
    }
    if reserve_in == 0 || reserve_out == 0 {
        return Err(CurveError::ZeroReserve);
    }
    if amount_in > MAX_RESERVE || reserve_in > MAX_RESERVE || reserve_out > MAX_RESERVE {
        return Err(CurveError::ReserveCapExceeded);
    }
    if fee_per_mille >= 1000 {
        return Err(CurveError::InvalidFee);
    }
    let keep: u128 = (1000 - fee_per_mille) as u128;
    proof {
        lemma_product_bound(amount_in as int, keep as int, MAX_RESERVE as int, 1000);
        lemma_product_bound(
            amount_in as int * keep as int,
            reserve_out as int,
            MAX_RESERVE as int * 1000,
            MAX_RESERVE as int,
        );
        lemma_curve_out_below_reserve(
            reserve_in as int,
            reserve_out as int,
            amount_in as int,
            fee_per_mille as int,
        );
    }
    let in_with_fee: u128 = amount_in as u128 * keep;
    let numerator: u128 = in_with_fee * reserve_out as u128;
    let denominator: u128 = reserve_in as u128 * 1000 + in_with_fee;
    let out: u128 = numerator / denominator;
    if out == 0 {
        return Err(CurveError::OutputRoundsToZero);
    }
    Ok(out as u64)
}

/// `r` is the integer square root of `n`.
pub open spec fn is_isqrt(n: int, r: int) -> bool {
    &&& 0 <= r
    &&& r * r <= n
    &&& n < (r + 1) * (r + 1)
}

/// There is at most one integer square root.
pub proof fn lemma_isqrt_unique(n: int, r: int, s: int)
    requires
        is_isqrt(n, r),
        is_isqrt(n, s),
    ensures
        r == s,
{
    if r < s {
        assert((r + 1) * (r + 1) <= s * s) by (nonlinear_arith)
            requires
                0 <= r < s,
        ;
    } else if s < r {
        assert((s + 1) * (s + 1) <= r * r) by (nonlinear_arith)
            requires
                0 <= s < r,
        ;
    }
}

/// The integer square root of `n`.
pub open spec fn isqrt_spec(n: int) -> int {
    choose|r: int| is_isqrt(n, r)
}

/// The integer square root, rounded down, by bisection.
pub fn isqrt(n: u128) -> (r: u64)
    ensures
        is_isqrt(n as int, r as int),
        r == isqrt_spec(n as int),
{
    let mut low: u128 = 0;
    let mut high: u128 = 0x1_0000_0000_0000_0000;
    assert(n < high * high) by (nonlinear_arith)
        requires
            high == 0x1_0000_0000_0000_0000,
            n <= u128::MAX,
    ;
    while high - low > 1
        invariant
            0 <= low < high <= 0x1_0000_0000_0000_0000,
            low * low <= n,
            n < high * high,
        decreases high - low,
    {
        let mid: u128 = low + (high - low) / 2;
        assert(mid * mid <= u128::MAX) by (nonlinear_arith)
            requires
                mid < 0x1_0000_0000_0000_0000,
        ;
        if mid * mid <= n {
            low = mid;
        } else {
            high = mid;
        }
    }
    proof {
        assert(high == low + 1);
        assert(is_isqrt(n as int, low as int));
        lemma_isqrt_unique(n as int, low as int, isqrt_spec(n as int));
    }
    low as u64
}

/// What a deposit creates.
#[derive(Debug, Clone, Copy, PartialEq, Eq, Structural)]
pub struct MintOutcome {
    /// Shares credited to the depositor.
    pub to_owner: u64,
    /// Pool total afterwards, including the unassigned `MINIMUM_LIQUIDITY`.
    pub new_total_shares: u64,
}

/// The smaller of two integers.
pub open spec fn min_int(a: int, b: int) -> int {
    if a <= b {
        a
    } else {
        b
    }
}

/// Shares that a deposit into an existing pool earns: what the scarcer side buys.
pub open spec fn proportional_shares(
    reserve_lo: int,
    reserve_hi: int,
    total_shares: int,
    da: int,
    db: int,
) -> int {
    min_int((da * total_shares) / reserve_lo, (db * total_shares) / reserve_hi)
}

/// The outcome of depositing `da` and `db` into a pool.
pub open spec fn mint_outcome(
    reserve_lo: u64,
    reserve_hi: u64,
    total_shares: u64,
    da: u64,
    db: u64,
) -> Result<MintOutcome, CurveError> {
    if da == 0 || db == 0 {
        Err(CurveError::ZeroAmount)
    } else if reserve_lo + da > MAX_RESERVE || reserve_hi + db > MAX_RESERVE {
        Err(CurveError::ReserveCapExceeded)
    } else if total_shares == 0 {
        let minted = isqrt_spec(da * db);
        if minted <= MINIMUM_LIQUIDITY {
            Err(CurveError::InsufficientInitialLiquidity)
        } else {
            Ok(
                MintOutcome {
                    to_owner: (minted - MINIMUM_LIQUIDITY) as u64,
                    new_total_shares: minted as u64,
                },
            )
        }
    } else if reserve_lo == 0 || reserve_hi == 0 {
        Err(CurveError::ZeroReserve)
    } else {
        let minted = proportional_shares(
            reserve_lo as int,
            reserve_hi as int,
            total_shares as int,
            da as int,
            db as int,
        );
        if minted > u64::MAX {
            Err(CurveError::Overflow)
        } else if minted == 0 {
            Err(CurveError::OutputRoundsToZero)
        } else if total_shares + minted > u64::MAX {
            Err(CurveError::Overflow)
        } else {
            Ok(
                MintOutcome {
                    to_owner: minted as u64,
                    new_total_shares: (total_shares + minted) as u64,
                },
            )
        }
    }
}

/// Shares for a deposit of `da` and `db`.
///
/// Creating a pool mints the integer square root of `da * db` and assigns all
/// but `MINIMUM_LIQUIDITY` of it to the depositor; the rest belongs to nobody.
/// A later deposit mints what the scarcer side is worth; the excess of the
/// other side is left to the holders there already are.
pub fn mint_shares(
    reserve_lo: u64,
    reserve_hi: u64,
    total_shares: u64,
    da: u64,
    db: u64,
) -> (r: Result<MintOutcome, CurveError>)
    ensures
        r == mint_outcome(reserve_lo, reserve_hi, total_shares, da, db),
{
    if da == 0 || db == 0 {
        return Err(CurveError::ZeroAmount);
    }
    if da > MAX_RESERVE || db > MAX_RESERVE {
        return Err(CurveError::ReserveCapExceeded);
    }
    if reserve_lo > MAX_RESERVE - da || reserve_hi > MAX_RESERVE - db {
        return Err(CurveError::ReserveCapExceeded);
    }
    if total_shares == 0 {
        proof {
            lemma_product_bound(da as int, db as int, MAX_RESERVE as int, MAX_RESERVE as int);
        }
        let minted: u64 = isqrt(da as u128 * db as u128);
        if minted <= MINIMUM_LIQUIDITY {
            return Err(CurveError::InsufficientInitialLiquidity);
        }
        Ok(MintOutcome { to_owner: minted - MINIMUM_LIQUIDITY, new_total_shares: minted })
    } else {
        if reserve_lo == 0 || reserve_hi == 0 {
            return Err(CurveError::ZeroReserve);
        }
        proof {
            lemma_product_bound(
                da as int,
                total_shares as int,
                MAX_RESERVE as int,
                u64::MAX as int,
            );
            lemma_product_bound(
                db as int,
                total_shares as int,
                MAX_RESERVE as int,
                u64::MAX as int,
            );
        }
        let via_lo: u128 = da as u128 * total_shares as u128 / reserve_lo as u128;
        let via_hi: u128 = db as u128 * total_shares as u128 / reserve_hi as u128;
        let minted: u128 = if via_lo <= via_hi {
            via_lo
        } else {
            via_hi
        };
        proof {
            lemma_quotient(da * total_shares, reserve_lo as int);
            lemma_quotient(db * total_shares, reserve_hi as int);
        }
        if minted > u64::MAX as u128 {
            return Err(CurveError::Overflow);
        }
        let minted: u64 = minted as u64;
        if minted == 0 {
            return Err(CurveError::OutputRoundsToZero);
        }
        if minted > u64::MAX - total_shares {
            return Err(CurveError::Overflow);
        }
        Ok(MintOutcome { to_owner: minted, new_total_shares: total_shares + minted })
    }
}

/// What a withdrawal pays.
#[derive(Debug, Clone, Copy, PartialEq, Eq, Structural)]
pub struct BurnOutcome {
    pub da: u64,
    pub db: u64,
    pub new_total_shares: u64,
}

/// The part of `reserve` that `shares` of `total_shares` own, rounded down.
pub open spec fn pro_rata(reserve: int, total_shares: int, shares: int) -> int {
    (reserve * shares) / total_shares
}

/// The outcome of burning `shares`.
pub open spec fn burn_outcome(
    reserve_lo: u64,
    reserve_hi: u64,
    total_shares: u64,
    shares: u64,
) -> Result<BurnOutcome, CurveError> {
    let da = pro_rata(reserve_lo as int, total_shares as int, shares as int);
    let db = pro_rata(reserve_hi as int, total_shares as int, shares as int);
    if shares == 0 {
        Err(CurveError::ZeroAmount)
    } else if shares > total_shares {
        Err(CurveError::InsufficientShares)
    } else if da == 0 && db == 0 {
        Err(CurveError::OutputRoundsToZero)
    } else {
        Ok(
            BurnOutcome {
                da: da as u64,
                db: db as u64,
                new_total_shares: (total_shares - shares) as u64,
            },
        )
    }
}

/// A holder of part of the shares owns at most the whole reserve.
pub proof fn lemma_pro_rata_bounded(reserve: int, total_shares: int, shares: int)
    requires
        0 <= reserve,
        0 <= shares <= total_shares,
        0 < total_shares,
    ensures
        0 <= pro_rata(reserve, total_shares, shares) <= reserve,
{
    assert(0 <= reserve * shares && reserve * shares <= reserve * total_shares) by (nonlinear_arith)
        requires
            0 <= reserve,
            0 <= shares <= total_shares,
    ;
    lemma_quotient(reserve * shares, total_shares);
    let q = (reserve * shares) / total_shares;
    assert(q <= reserve) by (nonlinear_arith)
        requires
            q * total_shares <= reserve * shares,
            reserve * shares <= reserve * total_shares,
            0 < total_shares,
    ;
}

/// What `shares` of the pool are worth on each side, both rounded down, so that
/// rounding dust stays with the pool.
pub fn burn_shares(reserve_lo: u64, reserve_hi: u64, total_shares: u64, shares: u64) -> (r: Result<
    BurnOutcome,
    CurveError,
>)
    ensures
        r == burn_outcome(reserve_lo, reserve_hi, total_shares, shares),
        r matches Ok(b) ==> b.da <= reserve_lo && b.db <= reserve_hi,
{
    if shares == 0 {
        return Err(CurveError::ZeroAmount);
    }
    if shares > total_shares {
        return Err(CurveError::InsufficientShares);
    }
    proof {
        lemma_product_bound(reserve_lo as int, shares as int, u64::MAX as int, u64::MAX as int);
        lemma_product_bound(reserve_hi as int, shares as int, u64::MAX as int, u64::MAX as int);
        lemma_pro_rata_bounded(reserve_lo as int, total_shares as int, shares as int);
        lemma_pro_rata_bounded(reserve_hi as int, total_shares as int, shares as int);
    }
    let da: u128 = reserve_lo as u128 * shares as u128 / total_shares as u128;
    let db: u128 = reserve_hi as u128 * shares as u128 / total_shares as u128;
    if da == 0 && db == 0 {
        return Err(CurveError::OutputRoundsToZero);
    }
    Ok(BurnOutcome { da: da as u64, db: db as u64, new_total_shares: total_shares - shares })
}

/// Whether a change of reserves keeps the product of the two at least as large.
pub fn k_non_decreasing(r_in_old: u64, r_out_old: u64, r_in_new: u64, r_out_new: u64) -> (r: bool)
    ensures
        r == (r_in_new * r_out_new >= r_in_old * r_out_old),
{
    proof {
        lemma_product_bound(r_in_old as int, r_out_old as int, u64::MAX as int, u64::MAX as int);
        lemma_product_bound(r_in_new as int, r_out_new as int, u64::MAX as int, u64::MAX as int);
    }
    let old_k: u128 = r_in_old as u128 * r_out_old as u128;
    let new_k: u128 = r_in_new as u128 * r_out_new as u128;
    new_k >= old_k
}

/// The effective price of a swap relative to the pool's price before it, in
/// per mille, rounded down.
pub open spec fn price_ratio_per_mille(
    reserve_in: int,
    reserve_out: int,
    amount_in: int,
    amount_out: int,
) -> int {
    (1000 * amount_out * reserve_in) / (amount_in * reserve_out)
}

/// How much worse than the pool's price the swap's own price is, in per mille;
/// zero where the swap's price is no worse, or where there is no price.
pub open spec fn price_impact(
    reserve_in: int,
    reserve_out: int,
    amount_in: int,
    amount_out: int,
) -> int {
    if amount_in * reserve_out == 0 {
        0
    } else {
        let ratio = price_ratio_per_mille(reserve_in, reserve_out, amount_in, amount_out);
        if ratio >= 1000 {
            0
        } else {
            1000 - ratio
        }
    }
}

/// How much worse a swap's own price is than the pool's price before it, in per
/// mille.
pub fn price_impact_per_mille(
    reserve_in: u64,
    reserve_out: u64,
    amount_in: u64,
    amount_out: u64,
) -> (r: u64)
    requires
        1000 * amount_out * reserve_in <= u128::MAX,
    ensures
        r == price_impact(
            reserve_in as int,
            reserve_out as int,
            amount_in as int,
            amount_out as int,
        ),
        r <= 1000,
{
    proof {
        lemma_product_bound(amount_in as int, reserve_out as int, u64::MAX as int, u64::MAX as int);
    }
    let denominator: u128 = amount_in as u128 * reserve_out as u128;
    if denominator == 0 {
        return 0;
    }
    let numerator: u128 = 1000u128 * amount_out as u128 * reserve_in as u128;
    let ratio: u128 = numerator / denominator;
    proof {
        lemma_quotient(numerator as int, denominator as int);
    }
    if ratio >= 1000 {
        0
    } else {
        1000 - ratio as u64
    }
}

} // verus!
