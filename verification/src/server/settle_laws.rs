//! What each kind of transaction item does to the ledger, in plain numbers.

use vstd::prelude::*;

use crate::config::AmmConfigConsensus;
use crate::crypto::PublicKey;
use crate::math::{burn_outcome, mint_outcome, swap_outcome, CurveError};
use crate::math_laws::law_swap_never_drains_and_never_overflows;
use crate::pool_id::PoolId;
use crate::server::db::{BalanceEntry, BalanceKey, LpPosition, LpPositionKey, Pool, PoolKey};
use crate::server::ledger::{
    at, input_effect, input_key, input_value, output_effect, output_value, LedgerView,
};
use crate::types::{AmmInput, AmmInputErrorView, AmmOutput, AmmOutputErrorView};
use crate::units::{Amount, AmountUnit};

verus! {

/// What a balance holds; nothing where there is none.
pub open spec fn held(balances: Map<BalanceKey, BalanceEntry>, key: BalanceKey) -> int {
    if balances.dom().contains(key) {
        balances[key].amount.msats as int
    } else {
        0
    }
}

/// An accepted swap puts its input into one reserve of its pool and takes what it
/// pays out of the other. The recipient's balance in the bought unit grows by
/// exactly that, which is at least what was asked for. The pool's shares, every
/// other pool and balance, the positions and the votes stay as they were.
pub proof fn law_an_accepted_swap_moves_what_it_says(
    cfg: AmmConfigConsensus,
    fee_of: spec_fn(PoolId) -> u16,
    s: LedgerView,
    unit_in: AmountUnit,
    unit_out: AmountUnit,
    amount_in: Amount,
    min_out: Amount,
    recipient_pk: PublicKey,
    tweak: [u8; 16],
    pop: [u8; 64],
)
    ensures
        ({
            let output = AmmOutput::SwapV0 {
                unit_in,
                unit_out,
                amount_in,
                min_out,
                recipient_pk,
                tweak,
                pop,
            };
            output_effect(cfg, fee_of, s, output) matches Ok(after) ==> exists|id: PoolId, paid: u64|
                #![trigger is_paid(s.pools[PoolKey(id)], unit_in, unit_out, amount_in, fee_of(id), paid)]
                {
                    let pool = PoolKey(id);
                    let key = BalanceKey { owner: recipient_pk, unit: unit_out };
                    let was = s.pools[pool];
                    let now = after.pools[pool];
                    let sells_low = unit_in.id < unit_out.id;
                    // The pool over the two units, whichever is sold.
                    &&& is_pool_of(id, unit_in, unit_out)
                    &&& s.pools.dom().contains(pool) && after.pools.dom().contains(pool)
                    &&& is_paid(s.pools[PoolKey(id)], unit_in, unit_out, amount_in, fee_of(id), paid)
                    &&& paid >= min_out.msats && paid > 0
                    &&& if sells_low {
                        &&& now.reserve_lo.msats == was.reserve_lo.msats + amount_in.msats
                        &&& now.reserve_hi.msats == was.reserve_hi.msats - paid
                    } else {
                        &&& now.reserve_hi.msats == was.reserve_hi.msats + amount_in.msats
                        &&& now.reserve_lo.msats == was.reserve_lo.msats - paid
                    }
                    &&& now.total_shares == was.total_shares
                    &&& now.reserve_lo.msats <= 288_230_376_151_711_744
                    &&& now.reserve_hi.msats <= 288_230_376_151_711_744
                    &&& after.balances.dom().contains(key)
                    &&& after.balances[key].amount.msats == held(s.balances, key) + paid
                    &&& after.balances[key].tweak == (if s.balances.dom().contains(key) {
                        s.balances[key].tweak
                    } else {
                        tweak
                    })
                    &&& forall|other: PoolKey|
                        other != pool ==> #[trigger] at(after.pools, other) == at(s.pools, other)
                    &&& forall|other: BalanceKey|
                        other != key ==> #[trigger] at(after.balances, other) == at(
                            s.balances,
                            other,
                        )
                    &&& after.positions == s.positions
                    &&& after.fee_votes == s.fee_votes
                    &&& after.desired_fees == s.desired_fees
                }
        }),
{
    let output = AmmOutput::SwapV0 {
        unit_in,
        unit_out,
        amount_in,
        min_out,
        recipient_pk,
        tweak,
        pop,
    };
    if output_effect(cfg, fee_of, s, output) is Ok {
        let id = PoolId::of_units(unit_in, unit_out)->0;
        PoolId::lemma_over(unit_in, unit_out);
        PoolId::lemma_over(unit_out, unit_in);
        let was = s.pools[PoolKey(id)];
        let sells_low = unit_in.id < unit_out.id;
        let fee = fee_of(id);
        let paid = if sells_low {
            swap_outcome(was.reserve_lo.msats, was.reserve_hi.msats, amount_in.msats, fee)->Ok_0
        } else {
            swap_outcome(was.reserve_hi.msats, was.reserve_lo.msats, amount_in.msats, fee)->Ok_0
        };
        law_swap_never_drains_and_never_overflows(
            was.reserve_lo.msats,
            was.reserve_hi.msats,
            amount_in.msats,
            fee,
        );
        law_swap_never_drains_and_never_overflows(
            was.reserve_hi.msats,
            was.reserve_lo.msats,
            amount_in.msats,
            fee,
        );
        assert(is_pool_of(id, unit_in, unit_out));
        assert(is_paid(s.pools[PoolKey(id)], unit_in, unit_out, amount_in, fee_of(id), paid));
    }
}

/// Whether a pool is the one over two units.
pub open spec fn is_pool_of(id: PoolId, a: AmountUnit, b: AmountUnit) -> bool {
    &&& a.id != b.id
    &&& id.low().id == (if a.id < b.id {
        a.id
    } else {
        b.id
    })
    &&& id.high().id == (if a.id < b.id {
        b.id
    } else {
        a.id
    })
}

/// Whether `paid` is what the curve pays for `amount_in` on that side of a pool.
pub open spec fn is_paid(
    pool: Pool,
    unit_in: AmountUnit,
    unit_out: AmountUnit,
    amount_in: Amount,
    fee: u16,
    paid: u64,
) -> bool {
    if unit_in.id < unit_out.id {
        swap_outcome(pool.reserve_lo.msats, pool.reserve_hi.msats, amount_in.msats, fee) == Ok::<
            u64,
            CurveError,
        >(paid)
    } else {
        swap_outcome(pool.reserve_hi.msats, pool.reserve_lo.msats, amount_in.msats, fee) == Ok::<
            u64,
            CurveError,
        >(paid)
    }
}

/// A swap is refused for its first fault: a missing proof, equal units, a unit
/// that may not be traded, too little, no pool, what the curve refuses, less than
/// was asked for, and last a reserve or a balance beyond the cap.
pub proof fn law_a_swap_is_refused_for_its_first_fault(
    cfg: AmmConfigConsensus,
    fee_of: spec_fn(PoolId) -> u16,
    s: LedgerView,
    unit_in: AmountUnit,
    unit_out: AmountUnit,
    amount_in: Amount,
    min_out: Amount,
    recipient_pk: PublicKey,
    tweak: [u8; 16],
    pop: [u8; 64],
    id: PoolId,
)
    requires
        unit_in.id != unit_out.id ==> is_pool_of(id, unit_in, unit_out),
    ensures
        ({
            let output = AmmOutput::SwapV0 {
                unit_in,
                unit_out,
                amount_in,
                min_out,
                recipient_pk,
                tweak,
                pop,
            };
            let refused = output_effect(cfg, fee_of, s, output);
            let cap: int = 288_230_376_151_711_744;
            let key = BalanceKey { owner: recipient_pk, unit: unit_out };
            let pool = s.pools[PoolKey(id)];
            let (reserve_in, reserve_out) = if unit_in.id < unit_out.id {
                (pool.reserve_lo.msats, pool.reserve_hi.msats)
            } else {
                (pool.reserve_hi.msats, pool.reserve_lo.msats)
            };
            let curve = swap_outcome(reserve_in, reserve_out, amount_in.msats, fee_of(id));
            if !output.pop_valid() {
                refused == Err::<LedgerView, AmmOutputErrorView>(
                    AmmOutputErrorView::InvalidProofOfPossession,
                )
            } else if unit_in.id == unit_out.id {
                refused == Err::<LedgerView, AmmOutputErrorView>(AmmOutputErrorView::IdenticalUnits)
            } else if cfg.units.lookup(unit_in) is None || cfg.units.lookup(unit_out) is None {
                refused == Err::<LedgerView, AmmOutputErrorView>(AmmOutputErrorView::UnknownUnit)
            } else if amount_in.msats < cfg.units.lookup(unit_in)->0.min_swap_in.msats {
                refused == Err::<LedgerView, AmmOutputErrorView>(AmmOutputErrorView::BelowMinSwapIn)
            } else if !s.pools.dom().contains(PoolKey(id)) {
                refused == Err::<LedgerView, AmmOutputErrorView>(AmmOutputErrorView::NoSuchPool)
            } else {
                match curve {
                    Err(CurveError::ReserveCapExceeded) => refused == Err::<
                        LedgerView,
                        AmmOutputErrorView,
                    >(AmmOutputErrorView::ReserveCapExceeded),
                    Err(e) => refused == Err::<LedgerView, AmmOutputErrorView>(
                        AmmOutputErrorView::Curve(e.text()),
                    ),
                    Ok(paid) => if paid < min_out.msats {
                        refused == Err::<LedgerView, AmmOutputErrorView>(
                            AmmOutputErrorView::SlippageExceeded,
                        )
                    } else if reserve_in + amount_in.msats > cap || (s.balances.dom().contains(key)
                        && held(s.balances, key) + paid > cap) {
                        refused == Err::<LedgerView, AmmOutputErrorView>(
                            AmmOutputErrorView::ReserveCapExceeded,
                        )
                    } else {
                        refused is Ok
                    },
                }
            }
        }),
{
    PoolId::lemma_over(unit_in, unit_out);
    PoolId::lemma_over(unit_out, unit_in);
    id.lemma_is_over();
    if unit_in.id != unit_out.id {
        let of = PoolId::of_units(unit_in, unit_out)->0;
        of.lemma_is_over();
        assert(of.low() == id.low() && of.high() == id.high());
    }
}

/// An accepted deposit adds what is put in to both reserves of its pool and the
/// shares it mints to the owner's position. A pool that did not exist starts from
/// nothing. Every other pool and position, the balances and the votes stay as they
/// were.
pub proof fn law_an_accepted_deposit_moves_what_it_says(
    cfg: AmmConfigConsensus,
    fee_of: spec_fn(PoolId) -> u16,
    s: LedgerView,
    id: PoolId,
    amount_lo: Amount,
    amount_hi: Amount,
    min_shares: u64,
    owner_pk: PublicKey,
    tweak: [u8; 16],
    pop: [u8; 64],
)
    ensures
        ({
            let output = AmmOutput::DepositV0 {
                pool: id,
                amount_lo,
                amount_hi,
                min_shares,
                owner_pk,
                tweak,
                pop,
            };
            let pool = PoolKey(id);
            let key = LpPositionKey { pool: id, owner: owner_pk };
            let there = s.pools.dom().contains(pool);
            let lo = if there {
                s.pools[pool].reserve_lo.msats
            } else {
                0u64
            };
            let hi = if there {
                s.pools[pool].reserve_hi.msats
            } else {
                0u64
            };
            let total = if there {
                s.pools[pool].total_shares
            } else {
                0u64
            };
            let before: int = if s.positions.dom().contains(key) {
                s.positions[key].shares as int
            } else {
                0
            };
            let curve = mint_outcome(lo, hi, total, amount_lo.msats, amount_hi.msats);
            match output_effect(cfg, fee_of, s, output) {
                Ok(after) => {
                    let now = after.pools[pool];
                    &&& output.pop_valid()
                    &&& cfg.units.lookup(id.low()) is Some && cfg.units.lookup(id.high()) is Some
                    &&& curve matches Ok(minted) && {
                        &&& minted.to_owner >= min_shares
                        &&& now.total_shares == minted.new_total_shares
                        &&& after.positions[key].shares == before + minted.to_owner
                    }
                    &&& after.pools.dom().contains(pool)
                    &&& now.reserve_lo.msats == lo + amount_lo.msats
                    &&& now.reserve_hi.msats == hi + amount_hi.msats
                    &&& after.positions.dom().contains(key)
                    &&& after.positions[key].tweak == (if s.positions.dom().contains(key) {
                        s.positions[key].tweak
                    } else {
                        tweak
                    })
                    &&& forall|other: PoolKey|
                        other != pool ==> #[trigger] at(after.pools, other) == at(s.pools, other)
                    &&& forall|other: LpPositionKey|
                        other != key ==> #[trigger] at(after.positions, other) == at(
                            s.positions,
                            other,
                        )
                    &&& after.balances == s.balances
                    &&& after.fee_votes == s.fee_votes
                    &&& after.desired_fees == s.desired_fees
                },
                Err(e) => if !output.pop_valid() {
                    e == AmmOutputErrorView::InvalidProofOfPossession
                } else if cfg.units.lookup(id.low()) is None || cfg.units.lookup(id.high()) is None {
                    e == AmmOutputErrorView::UnknownUnit
                } else {
                    match curve {
                        Err(CurveError::ReserveCapExceeded) => e
                            == AmmOutputErrorView::ReserveCapExceeded,
                        Err(error) => e == AmmOutputErrorView::Curve(error.text()),
                        Ok(minted) => if minted.to_owner < min_shares {
                            e == AmmOutputErrorView::SlippageExceeded
                        } else {
                            e == AmmOutputErrorView::Curve("share overflow"@) && before
                                + minted.to_owner > u64::MAX
                        },
                    }
                },
            }
        }),
{
}

/// A withdrawal takes what it pays out of both reserves and the shares it burns
/// out of the pool and the owner's position; a position that is used up goes away.
/// It pays within the bounds it was given, or is refused for its first fault.
pub proof fn law_a_withdrawal_moves_what_it_says(
    s: LedgerView,
    id: PoolId,
    owner_pk: PublicKey,
    shares: u64,
    min_lo: Amount,
    min_hi: Amount,
    max_lo: Amount,
    max_hi: Amount,
)
    ensures
        ({
            let input = AmmInput::WithdrawV0 {
                pool: id,
                owner_pk,
                shares,
                min_lo,
                min_hi,
                max_lo,
                max_hi,
            };
            let pool = PoolKey(id);
            let key = LpPositionKey { pool: id, owner: owner_pk };
            let was = s.pools[pool];
            let position = s.positions[key];
            let curve = burn_outcome(
                was.reserve_lo.msats,
                was.reserve_hi.msats,
                was.total_shares,
                shares,
            );
            match input_effect(s, input) {
                Ok(after) => {
                    let now = after.pools[pool];
                    &&& s.pools.dom().contains(pool) && s.positions.dom().contains(key)
                    &&& shares <= position.shares
                    &&& curve matches Ok(burned) && {
                        &&& min_lo.msats <= burned.da <= max_lo.msats
                        &&& min_hi.msats <= burned.db <= max_hi.msats
                        &&& now.reserve_lo.msats == was.reserve_lo.msats - burned.da
                        &&& now.reserve_hi.msats == was.reserve_hi.msats - burned.db
                        &&& now.total_shares == was.total_shares - shares
                        &&& input_value(s, input, id.low()) == burned.da
                        &&& id.low() != id.high() ==> input_value(s, input, id.high()) == burned.db
                    }
                    &&& input_key(input) == Some(owner_pk)
                    &&& after.pools.dom().contains(pool)
                    &&& at(after.positions, key) == (if shares == position.shares {
                        None
                    } else {
                        Some(
                            LpPosition {
                                shares: (position.shares - shares) as u64,
                                tweak: position.tweak,
                            },
                        )
                    })
                    &&& forall|other: PoolKey|
                        other != pool ==> #[trigger] at(after.pools, other) == at(s.pools, other)
                    &&& forall|other: LpPositionKey|
                        other != key ==> #[trigger] at(after.positions, other) == at(
                            s.positions,
                            other,
                        )
                    &&& after.balances == s.balances
                    &&& after.fee_votes == s.fee_votes
                    &&& after.desired_fees == s.desired_fees
                },
                Err(e) => if !s.pools.dom().contains(pool) {
                    e == AmmInputErrorView::NoSuchPool
                } else if !s.positions.dom().contains(key) {
                    e == AmmInputErrorView::NoSuchPosition
                } else if shares > position.shares {
                    e == AmmInputErrorView::InsufficientShares
                } else {
                    match curve {
                        Err(CurveError::InsufficientShares) => e
                            == AmmInputErrorView::InsufficientShares,
                        Err(error) => e == AmmInputErrorView::Curve(error.text()),
                        Ok(burned) => e == AmmInputErrorView::SlippageExceeded && !(min_lo.msats
                            <= burned.da <= max_lo.msats && min_hi.msats <= burned.db
                            <= max_hi.msats),
                    }
                },
            }
        }),
{
    if 0 < shares <= s.pools[PoolKey(id)].total_shares {
        let was = s.pools[PoolKey(id)];
        crate::math::lemma_pro_rata_bounded(
            was.reserve_lo.msats as int,
            was.total_shares as int,
            shares as int,
        );
        crate::math::lemma_pro_rata_bounded(
            was.reserve_hi.msats as int,
            was.total_shares as int,
            shares as int,
        );
    }
}

/// A claim takes the whole balance it names away and provides all that it held,
/// to the key that owns it. Nothing else changes.
pub proof fn law_a_claim_takes_the_whole_balance(
    s: LedgerView,
    pubkey: PublicKey,
    unit: AmountUnit,
)
    ensures
        ({
            let input = AmmInput::ClaimBalanceV0 { pubkey, unit };
            let key = BalanceKey { owner: pubkey, unit };
            match input_effect(s, input) {
                Ok(after) => {
                    &&& s.balances.dom().contains(key)
                    &&& !after.balances.dom().contains(key)
                    &&& forall|other: BalanceKey|
                        other != key ==> #[trigger] at(after.balances, other) == at(
                            s.balances,
                            other,
                        )
                    &&& after.pools == s.pools
                    &&& after.positions == s.positions
                    &&& after.fee_votes == s.fee_votes
                    &&& after.desired_fees == s.desired_fees
                    &&& input_key(input) == Some(pubkey)
                    &&& forall|u: AmountUnit| #[trigger]
                        input_value(s, input, u) == (if u == unit {
                            held(s.balances, key)
                        } else {
                            0
                        })
                },
                Err(e) => e == AmmInputErrorView::NoSuchBalance && !s.balances.dom().contains(key),
            }
        }),
{
}

/// What an output consumes in plain words: a swap its input, in the unit it sells;
/// a deposit what it puts in, on each side.
pub proof fn law_outputs_consume_what_they_put_in(output: AmmOutput, u: AmountUnit)
    ensures
        match output {
            AmmOutput::SwapV0 { unit_in, amount_in, .. } => output_value(output, u) == (if u
                == unit_in {
                amount_in.msats as int
            } else {
                0
            }),
            AmmOutput::DepositV0 { pool, amount_lo, amount_hi, .. } => {
                &&& u == pool.low() ==> output_value(output, u) == amount_lo.msats
                &&& u != pool.low() && u == pool.high() ==> output_value(output, u)
                    == amount_hi.msats
                &&& u != pool.low() && u != pool.high() ==> output_value(output, u) == 0
            },
            AmmOutput::Default { .. } => true,
        },
{
}

} // verus!
