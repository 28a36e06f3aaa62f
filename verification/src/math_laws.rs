//! What holds of the curve as a whole: no sequence of operations takes value
//! out of a pool that was not put into it.

use vstd::prelude::*;

use crate::math::{
    burn_outcome, curve_out, lemma_curve_out_below_reserve, lemma_pro_rata_bounded,
    lemma_product_bound, lemma_quotient, mint_outcome, price_impact, price_ratio_per_mille,
    pro_rata, swap_outcome, MAX_RESERVE, MINIMUM_LIQUIDITY,
};

verus! {

/// The inequality behind every swap law: what leaves the pool is worth no more,
/// at the pool's price after the swap, than what entered.
pub proof fn lemma_swap_exchange(reserve_in: int, reserve_out: int, amount_in: int, fee: int)
    requires
        0 < reserve_in,
        0 < reserve_out,
        0 <= amount_in,
        0 <= fee < 1000,
    ensures
        reserve_in * curve_out(reserve_in, reserve_out, amount_in, fee) <= amount_in * (reserve_out
            - curve_out(reserve_in, reserve_out, amount_in, fee)),
{
    let keep = 1000 - fee;
    let a = amount_in * keep;
    let out = curve_out(reserve_in, reserve_out, amount_in, fee);
    lemma_curve_out_below_reserve(reserve_in, reserve_out, amount_in, fee);
    assert(0 <= a && 0 <= a * reserve_out) by (nonlinear_arith)
        requires
            a == amount_in * keep,
            0 <= amount_in,
            0 < keep,
            0 < reserve_out,
    ;
    lemma_quotient(a * reserve_out, reserve_in * 1000 + a);
    assert(out * (reserve_in * 1000 + a) <= a * reserve_out);
    assert(keep * (reserve_in * out) <= keep * (amount_in * (reserve_out - out)))
        by (nonlinear_arith)
        requires
            out * (reserve_in * 1000 + a) <= a * reserve_out,
            a == amount_in * keep,
            0 <= out,
            0 < reserve_in,
            0 < keep <= 1000,
    ;
    assert(reserve_in * out <= amount_in * (reserve_out - out)) by (nonlinear_arith)
        requires
            keep * (reserve_in * out) <= keep * (amount_in * (reserve_out - out)),
            0 < keep,
    ;
}

/// A swap never lowers the product of the reserves, at any fee.
pub proof fn law_k_never_decreases(
    reserve_in: u64,
    reserve_out: u64,
    amount_in: u64,
    fee_per_mille: u16,
)
    ensures
        swap_outcome(reserve_in, reserve_out, amount_in, fee_per_mille) matches Ok(out) ==> {
            &&& out <= reserve_out
            &&& (reserve_in + amount_in) * (reserve_out - out) >= reserve_in * reserve_out
        },
{
    if let Ok(out) = swap_outcome(reserve_in, reserve_out, amount_in, fee_per_mille) {
        let r = reserve_in as int;
        let ro = reserve_out as int;
        let x = amount_in as int;
        lemma_curve_out_below_reserve(r, ro, x, fee_per_mille as int);
        lemma_swap_exchange(r, ro, x, fee_per_mille as int);
        let o = out as int;
        assert((r + x) * (ro - o) >= r * ro) by (nonlinear_arith)
            requires
                r * o <= x * (ro - o),
        ;
    }
}

/// Swapping and swapping back never returns more than was put in, and at any
/// fee above zero it returns strictly less.
pub proof fn law_round_trip_always_loses(
    reserve_a: u64,
    reserve_b: u64,
    amount: u64,
    fee_per_mille: u16,
)
    requires
        reserve_a + amount <= u64::MAX,
    ensures
        swap_outcome(reserve_a, reserve_b, amount, fee_per_mille) matches Ok(out) ==> (swap_outcome(
            (reserve_b - out) as u64,
            (reserve_a + amount) as u64,
            out,
            fee_per_mille,
        ) matches Ok(back) ==> back <= amount && (fee_per_mille > 0 ==> back < amount)),
{
    if let Ok(out) = swap_outcome(reserve_a, reserve_b, amount, fee_per_mille) {
        let fee = fee_per_mille as int;
        let keep = 1000 - fee;
        let ra = reserve_a as int;
        let rb = reserve_b as int;
        let x = amount as int;
        lemma_curve_out_below_reserve(ra, rb, x, fee);
        lemma_swap_exchange(ra, rb, x, fee);
        let o = out as int;
        if let Ok(back) = swap_outcome(
            (reserve_b - out) as u64,
            (reserve_a + amount) as u64,
            out,
            fee_per_mille,
        ) {
            let b = back as int;
            lemma_curve_out_below_reserve(rb - o, ra + x, o, fee);
            let num = o * keep * (ra + x);
            let den = (rb - o) * 1000 + o * keep;
            assert(num >= 0 && den > 0) by (nonlinear_arith)
                requires
                    num == o * keep * (ra + x),
                    den == (rb - o) * 1000 + o * keep,
                    o >= 0,
                    keep > 0,
                    ra + x > 0,
                    rb - o > 0,
            ;
            lemma_quotient(num, den);
            assert(b * den <= num);
            assert(num <= x * den) by (nonlinear_arith)
                requires
                    num == o * keep * (ra + x),
                    den == (rb - o) * 1000 + o * keep,
                    ra * o <= x * (rb - o),
                    0 < keep <= 1000,
                    0 < x,
                    0 < rb - o,
            ;
            assert(b <= x) by (nonlinear_arith)
                requires
                    b * den <= num,
                    num <= x * den,
                    den > 0,
            ;
            if fee > 0 {
                assert(num < x * den) by (nonlinear_arith)
                    requires
                        num == o * keep * (ra + x),
                        den == (rb - o) * 1000 + o * keep,
                        ra * o <= x * (rb - o),
                        0 < keep < 1000,
                        0 < x,
                        0 < rb - o,
                ;
                assert(b < x) by (nonlinear_arith)
                    requires
                        b * den <= num,
                        num < x * den,
                        den > 0,
                ;
            }
        }
    }
}

/// Of the errors of a swap, two never come: no swap within the caps asks for
/// the whole output reserve, and none overflows.
pub proof fn law_swap_never_drains_and_never_overflows(
    reserve_in: u64,
    reserve_out: u64,
    amount_in: u64,
    fee_per_mille: u16,
)
    ensures
        match swap_outcome(reserve_in, reserve_out, amount_in, fee_per_mille) {
            Ok(out) => 0 < out < reserve_out,
            Err(e) => e != crate::math::CurveError::InsufficientLiquidity && e
                != crate::math::CurveError::Overflow,
        },
{
    if let Ok(out) = swap_outcome(reserve_in, reserve_out, amount_in, fee_per_mille) {
        lemma_curve_out_below_reserve(
            reserve_in as int,
            reserve_out as int,
            amount_in as int,
            fee_per_mille as int,
        );
    }
}

/// What a weight of `a` draws out of `reserve_out` against a weight of `r` never
/// falls as `a` grows.
proof fn lemma_draw_grows(r: int, reserve_out: int, a: int, b: int)
    requires
        0 < r,
        0 < reserve_out,
        0 <= a <= b,
    ensures
        (a * reserve_out) / (r + a) <= (b * reserve_out) / (r + b),
{
    assert(0 <= a * reserve_out && 0 <= b * reserve_out) by (nonlinear_arith)
        requires
            0 <= a <= b,
            0 < reserve_out,
    ;
    lemma_quotient(a * reserve_out, r + a);
    lemma_quotient(b * reserve_out, r + b);
    let p = (a * reserve_out) / (r + a);
    let q = (b * reserve_out) / (r + b);
    if q < p {
        assert(p <= reserve_out) by (nonlinear_arith)
            requires
                p * (r + a) <= a * reserve_out,
                0 < r,
                0 <= a,
                0 < reserve_out,
        ;
        // p * (r + a) <= a * R and p <= R give p * (r + b) <= b * R.
        assert(p * (r + b) <= b * reserve_out) by (nonlinear_arith)
            requires
                p * (r + a) <= a * reserve_out,
                p <= reserve_out,
                0 <= a <= b,
        ;
        assert(b * reserve_out < p * (r + b)) by (nonlinear_arith)
            requires
                b * reserve_out < q * (r + b) + (r + b),
                q + 1 <= p,
                0 < r + b,
        ;
    }
}

/// A larger input never pays out less.
pub proof fn law_output_grows_with_input(
    reserve_in: int,
    reserve_out: int,
    small: int,
    big: int,
    fee: int,
)
    requires
        0 < reserve_in,
        0 < reserve_out,
        0 <= small <= big,
        0 <= fee < 1000,
    ensures
        curve_out(reserve_in, reserve_out, small, fee) <= curve_out(
            reserve_in,
            reserve_out,
            big,
            fee,
        ),
{
    let keep = 1000 - fee;
    let a = small * keep;
    let b = big * keep;
    assert(0 <= a <= b) by (nonlinear_arith)
        requires
            a == small * keep,
            b == big * keep,
            0 <= small <= big,
            0 < keep,
    ;
    lemma_draw_grows(reserve_in * 1000, reserve_out, a, b);
}

/// A higher fee never pays out more: what settles at the higher fee settles at
/// the lower one too, and pays at least as much there.
pub proof fn law_output_falls_with_fee(
    reserve_in: u64,
    reserve_out: u64,
    amount_in: u64,
    low: u16,
    high: u16,
)
    requires
        low <= high,
    ensures
        swap_outcome(reserve_in, reserve_out, amount_in, high) matches Ok(less) ==> (swap_outcome(
            reserve_in,
            reserve_out,
            amount_in,
            low,
        ) matches Ok(more) && less <= more),
{
    if swap_outcome(reserve_in, reserve_out, amount_in, high) is Ok {
        let a = amount_in * (1000 - high);
        let b = amount_in * (1000 - low);
        assert(0 <= a <= b) by (nonlinear_arith)
            requires
                a == amount_in * (1000 - high),
                b == amount_in * (1000 - low),
                0 <= low <= high < 1000,
                0 <= amount_in,
        ;
        lemma_draw_grows(reserve_in * 1000, reserve_out as int, a, b);
        lemma_curve_out_below_reserve(
            reserve_in as int,
            reserve_out as int,
            amount_in as int,
            low as int,
        );
        lemma_curve_out_below_reserve(
            reserve_in as int,
            reserve_out as int,
            amount_in as int,
            high as int,
        );
    }
}

/// Depositing and withdrawing the minted shares at once never returns more of
/// either asset than was put in.
pub proof fn law_deposit_withdraw_never_profits(
    reserve_lo: u64,
    reserve_hi: u64,
    total_shares: u64,
    da: u64,
    db: u64,
)
    requires
        total_shares == 0 ==> reserve_lo == 0 && reserve_hi == 0,
    ensures
        mint_outcome(reserve_lo, reserve_hi, total_shares, da, db) matches Ok(m) ==> (burn_outcome(
            (reserve_lo + da) as u64,
            (reserve_hi + db) as u64,
            m.new_total_shares,
            m.to_owner,
        ) matches Ok(b) ==> b.da <= da && b.db <= db),
{
    if let Ok(m) = mint_outcome(reserve_lo, reserve_hi, total_shares, da, db) {
        let s = total_shares as int;
        if total_shares == 0 {
            lemma_first_mint(da, db);
            lemma_pro_rata_bounded(da as int, m.new_total_shares as int, m.to_owner as int);
            lemma_pro_rata_bounded(db as int, m.new_total_shares as int, m.to_owner as int);
        } else {
            let minted = m.to_owner as int;
            lemma_redeem_at_most(reserve_lo as int, s, da as int, minted);
            lemma_redeem_at_most(reserve_hi as int, s, db as int, minted);
        }
    }
}

/// The square root that creates a pool fits in a `u64`.
pub proof fn lemma_first_mint(da: u64, db: u64)
    requires
        da <= MAX_RESERVE,
        db <= MAX_RESERVE,
    ensures
        0 <= crate::math::isqrt_spec(da * db) <= MAX_RESERVE,
        crate::math::is_isqrt(da * db, crate::math::isqrt_spec(da * db)),
{
    let n = da * db;
    assert(0 <= n <= MAX_RESERVE * MAX_RESERVE) by (nonlinear_arith)
        requires
            n == da * db,
            da <= MAX_RESERVE,
            db <= MAX_RESERVE,
    ;
    lemma_isqrt_exists(n, MAX_RESERVE as int);
    let r = crate::math::isqrt_spec(n);
    assert(r <= MAX_RESERVE) by (nonlinear_arith)
        requires
            r * r <= n,
            n <= MAX_RESERVE * MAX_RESERVE,
            0 <= r,
    ;
}

/// Every number up to the square of `bound` has an integer square root.
proof fn lemma_isqrt_exists(n: int, bound: int)
    requires
        0 <= bound,
        0 <= n <= bound * bound,
    ensures
        crate::math::is_isqrt(n, crate::math::isqrt_spec(n)),
    decreases bound,
{
    if bound * bound == n {
        assert(n < (bound + 1) * (bound + 1)) by (nonlinear_arith)
            requires
                n == bound * bound,
                0 <= bound,
        ;
        assert(crate::math::is_isqrt(n, bound));
    } else {
        assert(bound > 0) by (nonlinear_arith)
            requires
                0 <= bound,
                0 <= n < bound * bound,
        ;
        if n <= (bound - 1) * (bound - 1) {
            lemma_isqrt_exists(n, bound - 1);
        } else {
            assert(crate::math::is_isqrt(n, bound - 1));
        }
    }
}

/// Shares bought at no better than the pool's rate redeem at most what they cost.
proof fn lemma_redeem_at_most(reserve: int, total: int, paid: int, minted: int)
    requires
        0 < reserve,
        0 < total,
        0 < paid,
        0 < minted <= (paid * total) / reserve,
    ensures
        0 <= pro_rata(reserve + paid, total + minted, minted) <= paid,
{
    assert(0 <= paid * total) by (nonlinear_arith)
        requires
            0 < paid,
            0 < total,
    ;
    lemma_quotient(paid * total, reserve);
    let q = (paid * total) / reserve;
    assert(minted * reserve <= paid * total) by (nonlinear_arith)
        requires
            q * reserve <= paid * total,
            minted <= q,
            0 < reserve,
    ;
    assert((reserve + paid) * minted <= paid * (total + minted)) by (nonlinear_arith)
        requires
            minted * reserve <= paid * total,
    ;
    assert(0 <= (reserve + paid) * minted) by (nonlinear_arith)
        requires
            0 < reserve,
            0 < paid,
            0 < minted,
    ;
    lemma_quotient((reserve + paid) * minted, total + minted);
    let b = ((reserve + paid) * minted) / (total + minted);
    assert(b <= paid) by (nonlinear_arith)
        requires
            b * (total + minted) <= (reserve + paid) * minted,
            (reserve + paid) * minted <= paid * (total + minted),
            0 < total + minted,
    ;
}

/// A deposit into an existing pool never lowers what a share is worth, on
/// either side.
pub proof fn law_deposit_never_dilutes(
    reserve_lo: u64,
    reserve_hi: u64,
    total_shares: u64,
    da: u64,
    db: u64,
)
    requires
        total_shares > 0,
    ensures
        mint_outcome(reserve_lo, reserve_hi, total_shares, da, db) matches Ok(m) ==> {
            &&& (reserve_lo + da) * total_shares >= reserve_lo * m.new_total_shares
            &&& (reserve_hi + db) * total_shares >= reserve_hi * m.new_total_shares
        },
{
    if let Ok(m) = mint_outcome(reserve_lo, reserve_hi, total_shares, da, db) {
        lemma_no_dilution(reserve_lo as int, total_shares as int, da as int, m.to_owner as int);
        lemma_no_dilution(reserve_hi as int, total_shares as int, db as int, m.to_owner as int);
    }
}

proof fn lemma_no_dilution(reserve: int, total: int, paid: int, minted: int)
    requires
        0 < reserve,
        0 < total,
        0 < paid,
        0 < minted <= (paid * total) / reserve,
    ensures
        (reserve + paid) * total >= reserve * (total + minted),
{
    assert(0 <= paid * total) by (nonlinear_arith)
        requires
            0 < paid,
            0 < total,
    ;
    lemma_quotient(paid * total, reserve);
    let q = (paid * total) / reserve;
    assert((reserve + paid) * total >= reserve * (total + minted)) by (nonlinear_arith)
        requires
            q * reserve <= paid * total,
            minted <= q,
            0 < reserve,
    ;
}

/// A withdrawal never lowers what a remaining share is worth, and never pays
/// more of an asset than the pool holds.
pub proof fn law_withdrawal_never_dilutes(
    reserve_lo: u64,
    reserve_hi: u64,
    total_shares: u64,
    shares: u64,
)
    ensures
        burn_outcome(reserve_lo, reserve_hi, total_shares, shares) matches Ok(b) ==> {
            &&& b.da <= reserve_lo
            &&& b.db <= reserve_hi
            &&& (reserve_lo - b.da) * total_shares >= reserve_lo * b.new_total_shares
            &&& (reserve_hi - b.db) * total_shares >= reserve_hi * b.new_total_shares
        },
{
    if let Ok(b) = burn_outcome(reserve_lo, reserve_hi, total_shares, shares) {
        lemma_burn_side(reserve_lo as int, total_shares as int, shares as int);
        lemma_burn_side(reserve_hi as int, total_shares as int, shares as int);
    }
}

proof fn lemma_burn_side(reserve: int, total: int, shares: int)
    requires
        0 <= reserve,
        0 < total,
        0 <= shares <= total,
    ensures
        0 <= pro_rata(reserve, total, shares) <= reserve,
        (reserve - pro_rata(reserve, total, shares)) * total >= reserve * (total - shares),
{
    lemma_pro_rata_bounded(reserve, total, shares);
    assert(0 <= reserve * shares) by (nonlinear_arith)
        requires
            0 <= reserve,
            0 <= shares,
    ;
    lemma_quotient(reserve * shares, total);
    let q = pro_rata(reserve, total, shares);
    assert((reserve - q) * total >= reserve * (total - shares)) by (nonlinear_arith)
        requires
            q * total <= reserve * shares,
    ;
}

/// Creating a pool sets `MINIMUM_LIQUIDITY` shares aside for nobody.
pub proof fn law_first_mint_sets_minimum_aside(da: u64, db: u64)
    ensures
        mint_outcome(0, 0, 0, da, db) matches Ok(m) ==> {
            &&& m.to_owner > 0
            &&& m.new_total_shares == m.to_owner + MINIMUM_LIQUIDITY
        },
{
    if let Ok(m) = mint_outcome(0, 0, 0, da, db) {
        lemma_first_mint(da, db);
    }
}

/// A deposit that is accepted never leaves its owner with nothing.
pub proof fn law_every_mint_pays_its_owner(
    reserve_lo: u64,
    reserve_hi: u64,
    total_shares: u64,
    da: u64,
    db: u64,
)
    ensures
        mint_outcome(reserve_lo, reserve_hi, total_shares, da, db) matches Ok(m) ==> m.to_owner > 0,
{
    if mint_outcome(reserve_lo, reserve_hi, total_shares, da, db) is Ok {
        if total_shares == 0 {
            lemma_first_mint(da, db);
        } else {
            lemma_product_bound(da as int, total_shares as int, da as int, total_shares as int);
            lemma_product_bound(db as int, total_shares as int, db as int, total_shares as int);
            lemma_quotient(da * total_shares, reserve_lo as int);
            lemma_quotient(db * total_shares, reserve_hi as int);
        }
    }
}

/// A swap's own price is never better than the pool's, so its impact is what
/// the ratio of the two leaves of one thousand.
pub proof fn law_impact_is_what_the_ratio_leaves(
    reserve_in: u64,
    reserve_out: u64,
    amount_in: u64,
    fee_per_mille: u16,
)
    ensures
        swap_outcome(reserve_in, reserve_out, amount_in, fee_per_mille) matches Ok(out) ==> {
            let ratio = price_ratio_per_mille(
                reserve_in as int,
                reserve_out as int,
                amount_in as int,
                out as int,
            );
            &&& 0 <= ratio <= 1000
            &&& price_impact(
                reserve_in as int,
                reserve_out as int,
                amount_in as int,
                out as int,
            ) == 1000 - ratio
        },
{
    if let Ok(out) = swap_outcome(reserve_in, reserve_out, amount_in, fee_per_mille) {
        let r = reserve_in as int;
        let ro = reserve_out as int;
        let x = amount_in as int;
        let o = out as int;
        lemma_curve_out_below_reserve(r, ro, x, fee_per_mille as int);
        lemma_swap_exchange(r, ro, x, fee_per_mille as int);
        let num = 1000 * o * r;
        let den = x * ro;
        assert(0 <= num <= 1000 * den && 0 < den) by (nonlinear_arith)
            requires
                num == 1000 * o * r,
                den == x * ro,
                r * o <= x * (ro - o),
                0 < x,
                0 < ro,
                0 < r,
                0 <= o,
        ;
        lemma_quotient(num, den);
        let q = num / den;
        assert(q <= 1000) by (nonlinear_arith)
            requires
                q * den <= num,
                num <= 1000 * den,
                0 < den,
        ;
    }
}

/// A larger swap against the same pool is never reported as having less price
/// impact, unless rounding its output down made its own price the better one.
pub proof fn law_price_impact_is_monotonic(
    reserve_in: u64,
    reserve_out: u64,
    small: u64,
    big: u64,
    out_small: u64,
    out_big: u64,
)
    requires
        0 < reserve_in,
        0 < reserve_out,
        0 < small <= big,
        out_big * small <= out_small * big,
    ensures
        price_impact(reserve_in as int, reserve_out as int, small as int, out_small as int)
            <= price_impact(reserve_in as int, reserve_out as int, big as int, out_big as int),
{
    let r = reserve_in as int;
    let ro = reserve_out as int;
    let s = small as int;
    let b = big as int;
    let os = out_small as int;
    let ob = out_big as int;
    let ns = 1000 * os * r;
    let ds = s * ro;
    let nb = 1000 * ob * r;
    let db = b * ro;
    assert(0 < ds && 0 < db && 0 <= ns && 0 <= nb) by (nonlinear_arith)
        requires
            ds == s * ro,
            db == b * ro,
            ns == 1000 * os * r,
            nb == 1000 * ob * r,
            0 < s,
            0 < b,
            0 < ro,
            0 < r,
            0 <= os,
            0 <= ob,
    ;
    assert(nb * ds <= ns * db) by {
        assert(nb * ds == (1000 * r * ro) * (ob * s)) by (nonlinear_arith)
            requires
                nb == 1000 * ob * r,
                ds == s * ro,
        ;
        assert(ns * db == (1000 * r * ro) * (os * b)) by (nonlinear_arith)
            requires
                ns == 1000 * os * r,
                db == b * ro,
        ;
        assert((1000 * r * ro) * (ob * s) <= (1000 * r * ro) * (os * b)) by (nonlinear_arith)
            requires
                0 < r,
                0 < ro,
                ob * s <= os * b,
        ;
    }
    lemma_quotient(ns, ds);
    lemma_quotient(nb, db);
    let qs = ns / ds;
    let qb = nb / db;
    assert(qb <= qs) by {
        if qs < qb {
            assert(ns * db < qb * ds * db) by (nonlinear_arith)
                requires
                    ns < qs * ds + ds,
                    qs + 1 <= qb,
                    0 < ds,
                    0 < db,
            ;
            assert(qb * ds * db <= nb * ds) by (nonlinear_arith)
                requires
                    qb * db <= nb,
                    0 < ds,
            ;
        }
    }
}

/// Of two swaps against one pool whose outputs are both at least ten thousand,
/// the larger is never reported as having less price impact, beyond the one
/// per mille that rounding can hide.
pub proof fn law_price_impact_is_monotonic_within_rounding(
    reserve_in: u64,
    reserve_out: u64,
    small: u64,
    big: u64,
    fee_per_mille: u16,
)
    requires
        small <= big,
    ensures
        match (
            swap_outcome(reserve_in, reserve_out, small, fee_per_mille),
            swap_outcome(reserve_in, reserve_out, big, fee_per_mille),
        ) {
            (Ok(out_small), Ok(out_big)) => out_small >= 10_000 && out_big >= 10_000
                ==> price_impact(
                reserve_in as int,
                reserve_out as int,
                small as int,
                out_small as int,
            ) <= price_impact(reserve_in as int, reserve_out as int, big as int, out_big as int)
                + 1,
            _ => true,
        },
{
    match (
        swap_outcome(reserve_in, reserve_out, small, fee_per_mille),
        swap_outcome(reserve_in, reserve_out, big, fee_per_mille),
    ) {
        (Ok(out_small), Ok(out_big)) => {
            if out_small >= 10_000 && out_big >= 10_000 {
                lemma_impact_within_rounding(
                    reserve_in as int,
                    reserve_out as int,
                    small as int,
                    big as int,
                    fee_per_mille as int,
                );
                law_swap_never_drains_and_never_overflows(
                    reserve_in,
                    reserve_out,
                    small,
                    fee_per_mille,
                );
                law_swap_never_drains_and_never_overflows(
                    reserve_in,
                    reserve_out,
                    big,
                    fee_per_mille,
                );
                lemma_curve_out_below_reserve(
                    reserve_in as int,
                    reserve_out as int,
                    small as int,
                    fee_per_mille as int,
                );
                lemma_curve_out_below_reserve(
                    reserve_in as int,
                    reserve_out as int,
                    big as int,
                    fee_per_mille as int,
                );
            }
        },
        _ => {},
    }
}

proof fn lemma_impact_within_rounding(r: int, ro: int, s: int, b: int, fee: int)
    requires
        0 < r,
        0 < ro,
        0 < s <= b,
        0 <= fee < 1000,
        curve_out(r, ro, s, fee) >= 10_000,
    ensures
        price_impact(r, ro, s, curve_out(r, ro, s, fee)) <= price_impact(
            r,
            ro,
            b,
            curve_out(r, ro, b, fee),
        ) + 1,
{
    let keep = 1000 - fee;
    let os = curve_out(r, ro, s, fee);
    let ob = curve_out(r, ro, b, fee);
    let us = s * keep;
    let ub = b * keep;
    assert(0 < us <= ub && 0 <= us * ro && 0 <= ub * ro) by (nonlinear_arith)
        requires
            us == s * keep,
            ub == b * keep,
            0 < s <= b,
            0 < keep,
            0 < ro,
    ;
    lemma_quotient(us * ro, r * 1000 + us);
    lemma_quotient(ub * ro, r * 1000 + ub);
    lemma_curve_out_below_reserve(r, ro, s, fee);
    lemma_curve_out_below_reserve(r, ro, b, fee);
    lemma_swap_exchange(r, ro, s, fee);
    // The exact effective price falls as the input grows; rounding moves the
    // smaller swap's output by less than one unit.
    let ds0 = r * 1000 + us;
    let db0 = r * 1000 + ub;
    assert(ob * s < (os + 1) * b) by {
        assert(ob * db0 <= ub * ro);
        assert(us * ro < (os + 1) * ds0) by (nonlinear_arith)
            requires
                us * ro < os * ds0 + ds0,
        ;
        assert(keep * (ob * s * db0) <= keep * (b * s * keep * ro)) by (nonlinear_arith)
            requires
                ob * db0 <= ub * ro,
                ub == b * keep,
                0 < s,
                0 < keep,
        ;
        assert(b * (us * ro) < b * ((os + 1) * ds0)) by (nonlinear_arith)
            requires
                us * ro < (os + 1) * ds0,
                0 < b,
        ;
        assert(b * s * keep * ro == b * (us * ro)) by (nonlinear_arith)
            requires
                us == s * keep,
        ;
        assert(ob * s * db0 <= b * s * keep * ro) by (nonlinear_arith)
            requires
                keep * (ob * s * db0) <= keep * (b * s * keep * ro),
                0 < keep,
        ;
        assert(b * ((os + 1) * ds0) <= ((os + 1) * b) * db0) by (nonlinear_arith)
            requires
                0 < ds0 <= db0,
                0 < b,
                0 <= os,
        ;
        assert(ob * s * db0 < ((os + 1) * b) * db0);
        assert(ob * s < (os + 1) * b) by (nonlinear_arith)
            requires
                (ob * s) * db0 < ((os + 1) * b) * db0,
                0 < db0,
        ;
    }
    let ns = 1000 * os * r;
    let ds = s * ro;
    let nb = 1000 * ob * r;
    let db = b * ro;
    assert(0 < ds && 0 < db && 0 <= ns && 0 <= nb) by (nonlinear_arith)
        requires
            ds == s * ro,
            db == b * ro,
            ns == 1000 * os * r,
            nb == 1000 * ob * r,
            0 < s <= b,
            0 < ro,
            0 < r,
            0 <= os,
            0 <= ob,
    ;
    assert(1000 * r <= ds) by (nonlinear_arith)
        requires
            r * os <= s * (ro - os),
            os >= 10_000,
            ds == s * ro,
            0 < r,
            0 < s,
    ;
    assert(nb * ds <= (ns + ds) * db) by {
        assert(nb * ds == (1000 * r * ro) * (ob * s)) by (nonlinear_arith)
            requires
                nb == 1000 * ob * r,
                ds == s * ro,
        ;
        assert((ns + 1000 * r) * db == (1000 * r * ro) * ((os + 1) * b)) by (nonlinear_arith)
            requires
                ns == 1000 * os * r,
                db == b * ro,
        ;
        assert((1000 * r * ro) * (ob * s) <= (1000 * r * ro) * ((os + 1) * b)) by (nonlinear_arith)
            requires
                0 < r,
                0 < ro,
                ob * s < (os + 1) * b,
        ;
        assert((ns + 1000 * r) * db <= (ns + ds) * db) by (nonlinear_arith)
            requires
                1000 * r <= ds,
                0 < db,
        ;
    }
    lemma_quotient(ns, ds);
    lemma_quotient(nb, db);
    let qs = ns / ds;
    let qb = nb / db;
    assert(qb <= qs + 1) by {
        if qs + 1 < qb {
            assert((ns + ds) * db < qb * ds * db) by (nonlinear_arith)
                requires
                    ns < qs * ds + ds,
                    qs + 2 <= qb,
                    0 < ds,
                    0 < db,
            ;
            assert(qb * ds * db <= nb * ds) by (nonlinear_arith)
                requires
                    qb * db <= nb,
                    0 < ds,
            ;
        }
    }
}

} // verus!
