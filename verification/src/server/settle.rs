//! What each kind of transaction item does to the rows it touches.

use vstd::prelude::*;

use crate::config::AmmConfigConsensus;
use crate::math::{
    amount_out, burn_outcome, burn_shares, k_non_decreasing, mint_outcome, mint_shares,
    swap_outcome, CurveError, MAX_RESERVE,
};
use crate::math_laws::law_k_never_decreases;
use crate::pool_id::PoolId;
use crate::server::db::{BalanceEntry, LpPosition, Pool};
use crate::types::{AmmInputError, AmmInputErrorView, AmmOutputError, AmmOutputErrorView};
use crate::units::{Amount, AmountUnit};

verus! {

/// A result whose error is seen as contracts speak of it.
pub open spec fn output_result<T>(r: Result<T, AmmOutputError>) -> Result<T, AmmOutputErrorView> {
    match r {
        Ok(t) => Ok(t),
        Err(e) => Err(e@),
    }
}

/// A result whose error is seen as contracts speak of it.
pub open spec fn input_result<T>(r: Result<T, AmmInputError>) -> Result<T, AmmInputErrorView> {
    match r {
        Ok(t) => Ok(t),
        Err(e) => Err(e@),
    }
}

/// How an output reports an error of the curve.
pub open spec fn output_curve_error(e: CurveError) -> AmmOutputErrorView {
    match e {
        CurveError::ReserveCapExceeded => AmmOutputErrorView::ReserveCapExceeded,
        other => AmmOutputErrorView::Curve(other.text()),
    }
}

/// How an input reports an error of the curve.
pub open spec fn input_curve_error(e: CurveError) -> AmmInputErrorView {
    match e {
        CurveError::InsufficientShares => AmmInputErrorView::InsufficientShares,
        other => AmmInputErrorView::Curve(other.text()),
    }
}

/// Reports an error of the curve as an output's error: the reserve cap has an
/// error of its own, the rest carry their text.
pub fn map_curve_error(e: CurveError) -> (r: AmmOutputError)
    ensures
        r@ == output_curve_error(e),
{
    match e {
        CurveError::ReserveCapExceeded => AmmOutputError::ReserveCapExceeded,
        other => AmmOutputError::Curve(other.message().to_owned()),
    }
}

/// Reports an error of the curve as an input's error: a lack of shares has an
/// error of its own, the rest carry their text.
pub fn map_curve_error_input(e: CurveError) -> (r: AmmInputError)
    ensures
        r@ == input_curve_error(e),
{
    match e {
        CurveError::InsufficientShares => AmmInputError::InsufficientShares,
        other => AmmInputError::Curve(other.message().to_owned()),
    }
}

/// A swap that is admitted and priced.
#[derive(Debug, Clone, Copy, PartialEq, Eq, Structural)]
pub struct SwapQuote {
    /// What the swap pays out. The reserve is debited by it and the recipient
    /// credited with it.
    pub dy: u64,
    /// Whether the low unit comes in.
    pub in_is_lo: bool,
    /// The reserve that grows, before the swap.
    pub reserve_in: Amount,
    /// The reserve that shrinks, before the swap.
    pub reserve_out: Amount,
    /// The reserve that grows, after the swap.
    pub reserve_in_new: u64,
}

/// Why a swap of these units is not admitted, whatever the pool holds.
pub open spec fn swap_admission(
    cfg: AmmConfigConsensus,
    unit_in: AmountUnit,
    unit_out: AmountUnit,
    amount_in: Amount,
) -> Option<AmmOutputErrorView> {
    match (cfg.units.lookup(unit_in), cfg.units.lookup(unit_out)) {
        (Some(params), Some(_)) => if amount_in.msats < params.min_swap_in.msats {
            Some(AmmOutputErrorView::BelowMinSwapIn)
        } else {
            None
        },
        _ => Some(AmmOutputErrorView::UnknownUnit),
    }
}

/// Checks what can be checked of a swap without its pool.
pub fn admit_swap(
    cfg: &AmmConfigConsensus,
    unit_in: AmountUnit,
    unit_out: AmountUnit,
    amount_in: Amount,
) -> (r: Result<(), AmmOutputError>)
    requires
        cfg.wf(),
    ensures
        output_result(r) == (match swap_admission(*cfg, unit_in, unit_out, amount_in) {
            Some(e) => Err(e),
            None => Ok::<(), AmmOutputErrorView>(()),
        }),
{
    let params_in = match cfg.units.get(&unit_in) {
        Some(params) => params,
        None => return Err(AmmOutputError::UnknownUnit),
    };
    if cfg.units.get(&unit_out).is_none() {
        return Err(AmmOutputError::UnknownUnit);
    }
    if amount_in.msats < params_in.min_swap_in.msats {
        return Err(AmmOutputError::BelowMinSwapIn);
    }
    Ok(())
}

/// The swap of `amount_in` into `pool`, admitted and priced at `fee`; `min_out`
/// is the least it may pay, where it is to be settled and not only quoted.
pub open spec fn quoted_swap(
    cfg: AmmConfigConsensus,
    fee: u16,
    pool: Pool,
    pool_id: PoolId,
    unit_in: AmountUnit,
    amount_in: Amount,
    min_out: Option<Amount>,
) -> Result<SwapQuote, AmmOutputErrorView> {
    let in_is_lo = unit_in == pool_id.low();
    let unit_out = if in_is_lo {
        pool_id.high()
    } else {
        pool_id.low()
    };
    let (reserve_in, reserve_out) = if in_is_lo {
        (pool.reserve_lo, pool.reserve_hi)
    } else {
        (pool.reserve_hi, pool.reserve_lo)
    };
    match swap_admission(cfg, unit_in, unit_out, amount_in) {
        Some(e) => Err(e),
        None => match swap_outcome(reserve_in.msats, reserve_out.msats, amount_in.msats, fee) {
            Err(e) => Err(output_curve_error(e)),
            Ok(dy) => if min_out matches Some(least) && dy < least.msats {
                Err(AmmOutputErrorView::SlippageExceeded)
            } else if reserve_in.msats + amount_in.msats > MAX_RESERVE {
                Err(AmmOutputErrorView::ReserveCapExceeded)
            } else {
                Ok(
                    SwapQuote {
                        dy,
                        in_is_lo,
                        reserve_in,
                        reserve_out,
                        reserve_in_new: (reserve_in.msats + amount_in.msats) as u64,
                    },
                )
            },
        },
    }
}

/// Finds the side a swap comes in on, admits it and prices it. Quotes and
/// settlement both go through here, so that they cannot disagree.
pub fn quote_swap(
    cfg: &AmmConfigConsensus,
    fee: u16,
    pool: &Pool,
    pool_id: PoolId,
    unit_in: AmountUnit,
    amount_in: Amount,
    min_out: Option<Amount>,
) -> (r: Result<SwapQuote, AmmOutputError>)
    requires
        cfg.wf(),
    ensures
        output_result(r) == quoted_swap(*cfg, fee, *pool, pool_id, unit_in, amount_in, min_out),
        r matches Ok(q) ==> {
            &&& 0 < q.dy < q.reserve_out.msats <= MAX_RESERVE
            &&& q.reserve_in.msats <= MAX_RESERVE
        },
{
    let in_is_lo = unit_in == pool_id.lo();
    let unit_out = if in_is_lo {
        pool_id.hi()
    } else {
        pool_id.lo()
    };
    match admit_swap(cfg, unit_in, unit_out, amount_in) {
        Ok(()) => {},
        Err(e) => return Err(e),
    }
    let (reserve_in, reserve_out) = if in_is_lo {
        (pool.reserve_lo, pool.reserve_hi)
    } else {
        (pool.reserve_hi, pool.reserve_lo)
    };
    let dy: u64 = match amount_out(reserve_in.msats, reserve_out.msats, amount_in.msats, fee) {
        Ok(dy) => dy,
        Err(e) => return Err(map_curve_error(e)),
    };
    if let Some(least) = min_out {
        if dy < least.msats {
            return Err(AmmOutputError::SlippageExceeded);
        }
    }
    let reserve_in_new: u64 = reserve_in.msats + amount_in.msats;
    if reserve_in_new > MAX_RESERVE {
        return Err(AmmOutputError::ReserveCapExceeded);
    }
    Ok(SwapQuote { dy, in_is_lo, reserve_in, reserve_out, reserve_in_new })
}

/// The pool once a quoted swap is settled.
pub open spec fn pool_after_swap(pool: Pool, quote: SwapQuote) -> Pool {
    let grown = Amount { msats: quote.reserve_in_new };
    let shrunk = Amount { msats: (quote.reserve_out.msats - quote.dy) as u64 };
    if quote.in_is_lo {
        Pool { reserve_lo: grown, reserve_hi: shrunk, total_shares: pool.total_shares }
    } else {
        Pool { reserve_lo: shrunk, reserve_hi: grown, total_shares: pool.total_shares }
    }
}

/// The recipient's balance once `dy` is credited: what there was and `dy`, under
/// the tweak that was there first.
pub open spec fn credited_balance(
    balance: Option<BalanceEntry>,
    dy: u64,
    tweak: [u8; 16],
) -> Result<BalanceEntry, AmmOutputErrorView> {
    match balance {
        None => Ok(BalanceEntry { amount: Amount { msats: dy }, tweak }),
        Some(entry) => if entry.amount.msats + dy > MAX_RESERVE {
            Err(AmmOutputErrorView::ReserveCapExceeded)
        } else {
            Ok(
                BalanceEntry {
                    amount: Amount { msats: (entry.amount.msats + dy) as u64 },
                    tweak: entry.tweak,
                },
            )
        },
    }
}

/// What a swap leaves of the pool and of the recipient's balance.
pub open spec fn swap_settlement(
    cfg: AmmConfigConsensus,
    fee: u16,
    pool: Option<Pool>,
    balance: Option<BalanceEntry>,
    unit_in: AmountUnit,
    unit_out: AmountUnit,
    amount_in: Amount,
    min_out: Amount,
    tweak: [u8; 16],
) -> Result<(Pool, BalanceEntry), AmmOutputErrorView> {
    match (PoolId::of_units(unit_in, unit_out), swap_admission(cfg, unit_in, unit_out, amount_in)) {
        (None, _) => Err(AmmOutputErrorView::IdenticalUnits),
        (_, Some(e)) => Err(e),
        (Some(pool_id), None) => match pool {
            None => Err(AmmOutputErrorView::NoSuchPool),
            Some(pool) => match quoted_swap(
                cfg,
                fee,
                pool,
                pool_id,
                unit_in,
                amount_in,
                Some(min_out),
            ) {
                Err(e) => Err(e),
                Ok(quote) => match credited_balance(balance, quote.dy, tweak) {
                    Err(e) => Err(e),
                    Ok(entry) => Ok((pool_after_swap(pool, quote), entry)),
                },
            },
        },
    }
}

/// Settles a swap against the rows it touches. Nothing is written here: the
/// rows come back changed, or the swap is refused.
pub fn settle_swap(
    cfg: &AmmConfigConsensus,
    fee: u16,
    pool: Option<Pool>,
    balance: Option<BalanceEntry>,
    unit_in: AmountUnit,
    unit_out: AmountUnit,
    amount_in: Amount,
    min_out: Amount,
    tweak: [u8; 16],
) -> (r: Result<(Pool, BalanceEntry), AmmOutputError>)
    requires
        cfg.wf(),
    ensures
        output_result(r) == swap_settlement(
            *cfg,
            fee,
            pool,
            balance,
            unit_in,
            unit_out,
            amount_in,
            min_out,
            tweak,
        ),
{
    let pool_id = match PoolId::new(unit_in, unit_out) {
        Some(pool_id) => pool_id,
        None => return Err(AmmOutputError::IdenticalUnits),
    };
    match admit_swap(cfg, unit_in, unit_out, amount_in) {
        Ok(()) => {},
        Err(e) => return Err(e),
    }
    let pool = match pool {
        Some(pool) => pool,
        None => return Err(AmmOutputError::NoSuchPool),
    };
    let quote = match quote_swap(cfg, fee, &pool, pool_id, unit_in, amount_in, Some(min_out)) {
        Ok(quote) => quote,
        Err(e) => return Err(e),
    };
    let dy: u64 = quote.dy;
    let reserve_out_new: u64 = quote.reserve_out.msats - dy;
    proof {
        law_k_never_decreases(
            quote.reserve_in.msats,
            quote.reserve_out.msats,
            amount_in.msats,
            fee,
        );
    }
    if !k_non_decreasing(
        quote.reserve_in.msats,
        quote.reserve_out.msats,
        quote.reserve_in_new,
        reserve_out_new,
    ) {
        return Err(AmmOutputError::KInvariantViolated);
    }
    let entry = match balance {
        Some(entry) => {
            if entry.amount.msats > MAX_RESERVE || dy > MAX_RESERVE - entry.amount.msats {
                return Err(AmmOutputError::ReserveCapExceeded);
            }
            BalanceEntry {
                amount: Amount { msats: entry.amount.msats + dy },
                tweak: entry.tweak,
            }
        },
        None => BalanceEntry { amount: Amount { msats: dy }, tweak },
    };
    let grown = Amount { msats: quote.reserve_in_new };
    let shrunk = Amount { msats: reserve_out_new };
    let settled = if quote.in_is_lo {
        Pool { reserve_lo: grown, reserve_hi: shrunk, total_shares: pool.total_shares }
    } else {
        Pool { reserve_lo: shrunk, reserve_hi: grown, total_shares: pool.total_shares }
    };
    Ok((settled, entry))
}

/// The pool that a deposit meets: an empty one where there is none.
pub open spec fn pool_or_empty(pool: Option<Pool>) -> Pool {
    match pool {
        Some(pool) => pool,
        None => Pool {
            reserve_lo: Amount { msats: 0 },
            reserve_hi: Amount { msats: 0 },
            total_shares: 0,
        },
    }
}

/// What a deposit leaves of the pool and of the owner's position.
pub open spec fn deposit_settlement(
    cfg: AmmConfigConsensus,
    pool_id: PoolId,
    pool: Option<Pool>,
    position: Option<LpPosition>,
    amount_lo: Amount,
    amount_hi: Amount,
    min_shares: u64,
    tweak: [u8; 16],
) -> Result<(Pool, LpPosition), AmmOutputErrorView> {
    let before = pool_or_empty(pool);
    let held: int = match position {
        Some(p) => p.shares as int,
        None => 0,
    };
    if cfg.units.lookup(pool_id.low()) is None || cfg.units.lookup(pool_id.high()) is None {
        Err(AmmOutputErrorView::UnknownUnit)
    } else {
        match mint_outcome(
            before.reserve_lo.msats,
            before.reserve_hi.msats,
            before.total_shares,
            amount_lo.msats,
            amount_hi.msats,
        ) {
            Err(e) => Err(output_curve_error(e)),
            Ok(minted) => if minted.to_owner < min_shares {
                Err(AmmOutputErrorView::SlippageExceeded)
            } else if held + minted.to_owner > u64::MAX {
                Err(AmmOutputErrorView::Curve("share overflow"@))
            } else {
                Ok(
                    (
                        Pool {
                            reserve_lo: Amount {
                                msats: (before.reserve_lo.msats + amount_lo.msats) as u64,
                            },
                            reserve_hi: Amount {
                                msats: (before.reserve_hi.msats + amount_hi.msats) as u64,
                            },
                            total_shares: minted.new_total_shares,
                        },
                        LpPosition {
                            shares: (held + minted.to_owner) as u64,
                            tweak: match position {
                                Some(p) => p.tweak,
                                None => tweak,
                            },
                        },
                    ),
                )
            },
        }
    }
}

/// Settles a deposit against the rows it touches.
pub fn settle_deposit(
    cfg: &AmmConfigConsensus,
    pool_id: PoolId,
    pool: Option<Pool>,
    position: Option<LpPosition>,
    amount_lo: Amount,
    amount_hi: Amount,
    min_shares: u64,
    tweak: [u8; 16],
) -> (r: Result<(Pool, LpPosition), AmmOutputError>)
    requires
        cfg.wf(),
    ensures
        output_result(r) == deposit_settlement(
            *cfg,
            pool_id,
            pool,
            position,
            amount_lo,
            amount_hi,
            min_shares,
            tweak,
        ),
{
    if cfg.units.get(&pool_id.lo()).is_none() || cfg.units.get(&pool_id.hi()).is_none() {
        return Err(AmmOutputError::UnknownUnit);
    }
    let before = match pool {
        Some(pool) => pool,
        None => Pool {
            reserve_lo: Amount { msats: 0 },
            reserve_hi: Amount { msats: 0 },
            total_shares: 0,
        },
    };
    let minted = match mint_shares(
        before.reserve_lo.msats,
        before.reserve_hi.msats,
        before.total_shares,
        amount_lo.msats,
        amount_hi.msats,
    ) {
        Ok(minted) => minted,
        Err(e) => return Err(map_curve_error(e)),
    };
    if minted.to_owner < min_shares {
        return Err(AmmOutputError::SlippageExceeded);
    }
    let (held, stored_tweak): (u64, [u8; 16]) = match position {
        Some(p) => (p.shares, p.tweak),
        None => (0, tweak),
    };
    if held > u64::MAX - minted.to_owner {
        return Err(AmmOutputError::Curve("share overflow".to_owned()));
    }
    let settled = Pool {
        reserve_lo: Amount { msats: before.reserve_lo.msats + amount_lo.msats },
        reserve_hi: Amount { msats: before.reserve_hi.msats + amount_hi.msats },
        total_shares: minted.new_total_shares,
    };
    Ok((settled, LpPosition { shares: held + minted.to_owner, tweak: stored_tweak }))
}

/// What a withdrawal leaves and pays.
#[derive(Debug, Clone, Copy, PartialEq, Eq)]
pub struct Withdrawal {
    pub pool: Pool,
    /// What is left of the position; nothing where all of it was burned.
    pub position: Option<LpPosition>,
    pub lo: Amount,
    pub hi: Amount,
}

/// What a withdrawal leaves of the pool and of the position, and what it pays.
pub open spec fn withdrawal_settlement(
    pool: Option<Pool>,
    position: Option<LpPosition>,
    shares: u64,
    min_lo: Amount,
    min_hi: Amount,
    max_lo: Amount,
    max_hi: Amount,
) -> Result<Withdrawal, AmmInputErrorView> {
    match (pool, position) {
        (None, _) => Err(AmmInputErrorView::NoSuchPool),
        (_, None) => Err(AmmInputErrorView::NoSuchPosition),
        (Some(pool), Some(position)) => if shares > position.shares {
            Err(AmmInputErrorView::InsufficientShares)
        } else {
            match burn_outcome(
                pool.reserve_lo.msats,
                pool.reserve_hi.msats,
                pool.total_shares,
                shares,
            ) {
                Err(e) => Err(input_curve_error(e)),
                Ok(burned) => if burned.da < min_lo.msats || burned.db < min_hi.msats || burned.da
                    > max_lo.msats || burned.db > max_hi.msats {
                    Err(AmmInputErrorView::SlippageExceeded)
                } else {
                    Ok(
                        Withdrawal {
                            pool: Pool {
                                reserve_lo: Amount {
                                    msats: (pool.reserve_lo.msats - burned.da) as u64,
                                },
                                reserve_hi: Amount {
                                    msats: (pool.reserve_hi.msats - burned.db) as u64,
                                },
                                total_shares: burned.new_total_shares,
                            },
                            position: if shares == position.shares {
                                None
                            } else {
                                Some(
                                    LpPosition {
                                        shares: (position.shares - shares) as u64,
                                        tweak: position.tweak,
                                    },
                                )
                            },
                            lo: Amount { msats: burned.da },
                            hi: Amount { msats: burned.db },
                        },
                    )
                },
            }
        },
    }
}

/// Settles a withdrawal against the rows it touches.
pub fn settle_withdrawal(
    pool: Option<Pool>,
    position: Option<LpPosition>,
    shares: u64,
    min_lo: Amount,
    min_hi: Amount,
    max_lo: Amount,
    max_hi: Amount,
) -> (r: Result<Withdrawal, AmmInputError>)
    ensures
        input_result(r) == withdrawal_settlement(
            pool,
            position,
            shares,
            min_lo,
            min_hi,
            max_lo,
            max_hi,
        ),
{
    let pool = match pool {
        Some(pool) => pool,
        None => return Err(AmmInputError::NoSuchPool),
    };
    let position = match position {
        Some(position) => position,
        None => return Err(AmmInputError::NoSuchPosition),
    };
    if shares > position.shares {
        return Err(AmmInputError::InsufficientShares);
    }
    let burned = match burn_shares(
        pool.reserve_lo.msats,
        pool.reserve_hi.msats,
        pool.total_shares,
        shares,
    ) {
        Ok(burned) => burned,
        Err(e) => return Err(map_curve_error_input(e)),
    };
    if burned.da < min_lo.msats || burned.db < min_hi.msats || burned.da > max_lo.msats
        || burned.db > max_hi.msats {
        return Err(AmmInputError::SlippageExceeded);
    }
    let left = if shares == position.shares {
        None
    } else {
        Some(LpPosition { shares: position.shares - shares, tweak: position.tweak })
    };
    Ok(
        Withdrawal {
            pool: Pool {
                reserve_lo: Amount { msats: pool.reserve_lo.msats - burned.da },
                reserve_hi: Amount { msats: pool.reserve_hi.msats - burned.db },
                total_shares: burned.new_total_shares,
            },
            position: left,
            lo: Amount { msats: burned.da },
            hi: Amount { msats: burned.db },
        },
    )
}

} // verus!
