//! What the curve pays, in plain numbers: each result is the only one that fits
//! between two inequalities, and each refusal has its own condition.

use vstd::prelude::*;

use crate::math::{
    burn_outcome, is_isqrt, isqrt_spec, lemma_curve_out_below_reserve, lemma_pro_rata_bounded,
    lemma_product_bound, lemma_quotient, mint_outcome, price_impact, swap_outcome, CurveError,
};
use crate::math_laws::lemma_first_mint;

verus! {

/// A swap pays the most it can without the reserves' product falling, the fee
/// set aside: with what it pays, the product of the reserves, the input counted
/// less the fee, is at least what it was, and with one unit more it would not be.
/// It is refused for nothing, for an empty or oversized side, for a fee of all or
/// more, and where not one unit can be paid, in that order.
pub proof fn law_a_swap_pays_the_most_that_keeps_the_product(
    reserve_in: u64,
    reserve_out: u64,
    amount_in: u64,
    fee: u16,
)
    ensures
        ({
            let cap: int = 288_230_376_151_711_744;
            let kept = amount_in * (1000 - fee);
            let grown = reserve_in * 1000 + kept;
            match swap_outcome(reserve_in, reserve_out, amount_in, fee) {
                Ok(out) => {
                    &&& 0 < amount_in <= cap && 0 < reserve_in <= cap && 0 < reserve_out <= cap
                    &&& fee < 1000
                    &&& 0 < out < reserve_out
                    &&& grown * (reserve_out - out) >= reserve_in * 1000 * reserve_out
                    &&& grown * (reserve_out - (out + 1)) < reserve_in * 1000 * reserve_out
                },
                Err(CurveError::ZeroAmount) => amount_in == 0,
                Err(CurveError::ZeroReserve) => amount_in > 0 && (reserve_in == 0 || reserve_out
                    == 0),
                Err(CurveError::ReserveCapExceeded) => amount_in > 0 && reserve_in > 0
                    && reserve_out > 0 && (amount_in > cap || reserve_in > cap || reserve_out
                    > cap),
                Err(CurveError::InvalidFee) => fee >= 1000 && 0 < amount_in <= cap && 0
                    < reserve_in <= cap && 0 < reserve_out <= cap,
                Err(CurveError::OutputRoundsToZero) => {
                    &&& 0 < amount_in <= cap && 0 < reserve_in <= cap && 0 < reserve_out <= cap
                    &&& fee < 1000
                    &&& grown * (reserve_out - 1) < reserve_in * 1000 * reserve_out
                },
                Err(_) => false,
            }
        }),
{
    let cap: int = 288_230_376_151_711_744;
    if 0 < amount_in <= cap && 0 < reserve_in <= cap && 0 < reserve_out <= cap && fee < 1000 {
        let kept = amount_in * (1000 - fee);
        let grown = reserve_in * 1000 + kept;
        let n = kept * reserve_out;
        lemma_curve_out_below_reserve(
            reserve_in as int,
            reserve_out as int,
            amount_in as int,
            fee as int,
        );
        assert(kept > 0 && n >= 0) by (nonlinear_arith)
            requires
                kept == amount_in * (1000 - fee),
                n == kept * reserve_out,
                0 < amount_in,
                0 < reserve_out,
                fee < 1000,
        ;
        lemma_quotient(n, grown);
        let q = n / grown;
        assert(grown * (reserve_out - q) == reserve_in * 1000 * reserve_out + n - q * grown)
            by (nonlinear_arith)
            requires
                grown == reserve_in * 1000 + kept,
                n == kept * reserve_out,
        ;
        assert(grown * (reserve_out - (q + 1)) == reserve_in * 1000 * reserve_out + n - q * grown
            - grown) by (nonlinear_arith)
            requires
                grown == reserve_in * 1000 + kept,
                n == kept * reserve_out,
        ;
    }
}

/// A deposit mints the most shares that it pays for. The first one mints the
/// largest number whose square is no more than the product of what is put in, of
/// which a thousand go to nobody. A later one mints the largest number that costs
/// no more than was put in on either side, at what the shares so far are worth.
pub proof fn law_a_deposit_mints_the_most_it_pays_for(
    reserve_lo: u64,
    reserve_hi: u64,
    total_shares: u64,
    da: u64,
    db: u64,
)
    ensures
        ({
            let cap: int = 288_230_376_151_711_744;
            let fits = da > 0 && db > 0 && reserve_lo + da <= cap && reserve_hi + db <= cap;
            match mint_outcome(reserve_lo, reserve_hi, total_shares, da, db) {
                Ok(m) => {
                    let all = m.new_total_shares - total_shares;
                    &&& fits
                    &&& m.to_owner > 0
                    &&& if total_shares == 0 {
                        &&& m.new_total_shares == m.to_owner + 1000
                        &&& all * all <= da * db
                        &&& da * db < (all + 1) * (all + 1)
                    } else {
                        &&& reserve_lo > 0 && reserve_hi > 0
                        &&& m.new_total_shares == total_shares + m.to_owner
                        &&& m.to_owner * reserve_lo <= da * total_shares
                        &&& m.to_owner * reserve_hi <= db * total_shares
                        &&& (m.to_owner + 1) * reserve_lo > da * total_shares || (m.to_owner + 1)
                            * reserve_hi > db * total_shares
                    }
                },
                Err(CurveError::ZeroAmount) => da == 0 || db == 0,
                Err(CurveError::ReserveCapExceeded) => da > 0 && db > 0 && !fits,
                Err(CurveError::InsufficientInitialLiquidity) => fits && total_shares == 0 && da
                    * db < 1001 * 1001,
                Err(CurveError::ZeroReserve) => fits && total_shares > 0 && (reserve_lo == 0
                    || reserve_hi == 0),
                Err(CurveError::OutputRoundsToZero) => fits && total_shares > 0 && (reserve_lo
                    > da * total_shares || reserve_hi > db * total_shares),
                // The shares would not fit a number of their kind.
                Err(CurveError::Overflow) => {
                    let room = u64::MAX - total_shares;
                    &&& fits && total_shares > 0 && reserve_lo > 0 && reserve_hi > 0
                    &&& (room + 1) * reserve_lo <= da * total_shares
                    &&& (room + 1) * reserve_hi <= db * total_shares
                },
                Err(_) => false,
            }
        }),
{
    let cap: int = 288_230_376_151_711_744;
    if da > 0 && db > 0 && reserve_lo + da <= cap && reserve_hi + db <= cap {
        if total_shares == 0 {
            lemma_first_mint(da, db);
            let r = isqrt_spec(da * db);
            assert(is_isqrt(da * db, r));
            if r <= 1000 {
                assert((r + 1) * (r + 1) <= 1001 * 1001) by (nonlinear_arith)
                    requires
                        0 <= r <= 1000,
                ;
            }
        } else if reserve_lo > 0 && reserve_hi > 0 {
            let a = da * total_shares;
            let b = db * total_shares;
            lemma_product_bound(da as int, total_shares as int, da as int, total_shares as int);
            lemma_product_bound(db as int, total_shares as int, db as int, total_shares as int);
            lemma_quotient(a, reserve_lo as int);
            lemma_quotient(b, reserve_hi as int);
            let x = a / (reserve_lo as int);
            let y = b / (reserve_hi as int);
            let m = if x <= y {
                x
            } else {
                y
            };
            lemma_scaled(m, x, reserve_lo as int);
            lemma_scaled(m, y, reserve_hi as int);
            let room = u64::MAX - total_shares;
            if m > room {
                lemma_scaled(room + 1, x, reserve_lo as int);
                lemma_scaled(room + 1, y, reserve_hi as int);
            }
            if x == 0 {
                lemma_nothing(x, reserve_lo as int);
            }
            if y == 0 {
                lemma_nothing(y, reserve_hi as int);
            }
            assert((x + 1) * reserve_lo == x * reserve_lo + reserve_lo) by (nonlinear_arith);
            assert((y + 1) * reserve_hi == y * reserve_hi + reserve_hi) by (nonlinear_arith);
        }
    }
}

/// Nothing of anything is nothing.
proof fn lemma_nothing(a: int, by: int)
    requires
        a == 0,
    ensures
        a * by == 0,
{
    assert(a * by == 0) by (nonlinear_arith)
        requires
            a == 0,
    ;
}

proof fn lemma_scaled(a: int, b: int, by: int)
    requires
        a <= b,
        0 < by,
    ensures
        a * by <= b * by,
{
    assert(a * by <= b * by) by (nonlinear_arith)
        requires
            a <= b,
            0 < by,
    ;
}

/// A withdrawal pays the most of each reserve that its part of the shares owns,
/// and takes exactly those shares away. It is refused for no shares, for more
/// than there are, and where it would pay nothing on both sides.
pub proof fn law_a_withdrawal_pays_the_most_its_shares_own(
    reserve_lo: u64,
    reserve_hi: u64,
    total_shares: u64,
    shares: u64,
)
    ensures
        match burn_outcome(reserve_lo, reserve_hi, total_shares, shares) {
            Ok(b) => {
                &&& 0 < shares <= total_shares
                &&& b.new_total_shares == total_shares - shares
                &&& b.da * total_shares <= reserve_lo * shares < (b.da + 1) * total_shares
                &&& b.db * total_shares <= reserve_hi * shares < (b.db + 1) * total_shares
                &&& b.da > 0 || b.db > 0
            },
            Err(CurveError::ZeroAmount) => shares == 0,
            Err(CurveError::InsufficientShares) => shares > total_shares,
            Err(CurveError::OutputRoundsToZero) => 0 < shares <= total_shares && reserve_lo * shares
                < total_shares && reserve_hi * shares < total_shares,
            Err(_) => false,
        },
{
    if 0 < shares <= total_shares {
        lemma_product_bound(
            reserve_lo as int,
            shares as int,
            reserve_lo as int,
            shares as int,
        );
        lemma_product_bound(
            reserve_hi as int,
            shares as int,
            reserve_hi as int,
            shares as int,
        );
        lemma_quotient(reserve_lo * shares, total_shares as int);
        lemma_quotient(reserve_hi * shares, total_shares as int);
        lemma_pro_rata_bounded(reserve_lo as int, total_shares as int, shares as int);
        lemma_pro_rata_bounded(reserve_hi as int, total_shares as int, shares as int);
        let x = (reserve_lo * shares) / (total_shares as int);
        let y = (reserve_hi * shares) / (total_shares as int);
        if x == 0 {
            lemma_nothing(x, total_shares as int);
        }
        if y == 0 {
            lemma_nothing(y, total_shares as int);
        }
        assert((x + 1) * total_shares == x * total_shares + total_shares) by (nonlinear_arith);
        assert((y + 1) * total_shares == y * total_shares + total_shares) by (nonlinear_arith);
    }
}

/// The impact of a swap in plain numbers: the whole per mille that its own price
/// falls short of the pool's, rounded up. A swap at the pool's price or better,
/// and one without a price, has none.
pub proof fn law_impact_in_numbers(
    reserve_in: u64,
    reserve_out: u64,
    amount_in: u64,
    amount_out: u64,
)
    ensures
        ({
            let impact = price_impact(
                reserve_in as int,
                reserve_out as int,
                amount_in as int,
                amount_out as int,
            );
            let fair = amount_in * reserve_out;
            let got = amount_out * reserve_in;
            &&& 0 <= impact <= 1000
            &&& fair == 0 || got >= fair ==> impact == 0
            &&& fair > 0 && got < fair ==> impact > 0 && (1000 - impact) * fair <= 1000 * got < (
            1001 - impact) * fair
        }),
{
    let fair = amount_in * reserve_out;
    let got = amount_out * reserve_in;
    assert(fair >= 0 && got >= 0 && 1000 * amount_out * reserve_in == 1000 * got)
        by (nonlinear_arith)
        requires
            fair == amount_in * reserve_out,
            got == amount_out * reserve_in,
    ;
    if fair > 0 {
        lemma_quotient(1000 * got, fair);
        let q = (1000 * got) / fair;
        assert((q + 1) * fair == q * fair + fair) by (nonlinear_arith);
        if got >= fair {
            if q < 1000 {
                lemma_scaled(q + 1, 1000, fair);
            }
        } else if q >= 1000 {
            lemma_scaled(1000, q, fair);
        }
    }
}

} // verus!
