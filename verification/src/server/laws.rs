//! What holds of the ledger across items.

use vstd::prelude::*;

use crate::config::AmmConfigConsensus;
use crate::crypto::PublicKey;
use crate::math::{MAX_RESERVE, MINIMUM_LIQUIDITY};
use crate::pool_id::PoolId;
use crate::server::api::{audit_items, balance_items, high_items, low_items};
use crate::server::db::{BalanceEntry, BalanceKey, LpPosition, LpPositionKey, Pool, PoolKey};
use crate::server::ledger::{
    amount_part, at, input_effect, lemma_owned_nonnegative, output_effect, reserves_part,
    shares_part, Ledger, LedgerView,
};
use crate::server::settle::{quoted_swap, swap_settlement, withdrawal_settlement};
use crate::table::{lemma_total_at_least, seq_total};
use crate::types::{AmmInput, AmmInputErrorView, AmmOutput, AmmOutputErrorView};
use crate::units::{Amount, AmountUnit};

verus! {

/// A balance is claimed once: the same claim again finds nothing.
pub proof fn law_second_claim_finds_nothing(s: LedgerView, pubkey: PublicKey, unit: AmountUnit)
    ensures
        input_effect(s, AmmInput::ClaimBalanceV0 { pubkey, unit }) matches Ok(after)
            ==> input_effect(after, AmmInput::ClaimBalanceV0 { pubkey, unit }) == Err::<
            LedgerView,
            AmmInputErrorView,
        >(AmmInputErrorView::NoSuchBalance),
{
}

/// A claim touches nothing but the one balance it names.
pub proof fn law_claim_touches_one_balance(
    s: LedgerView,
    pubkey: PublicKey,
    unit: AmountUnit,
    other: BalanceKey,
)
    requires
        other != (BalanceKey { owner: pubkey, unit }),
    ensures
        input_effect(s, AmmInput::ClaimBalanceV0 { pubkey, unit }) matches Ok(after) ==> {
            &&& at(after.balances, other) == at(s.balances, other)
            &&& after.pools == s.pools
            &&& after.positions == s.positions
        },
{
}

/// What is credited to a key that has a balance already keeps the tweak that
/// was stored first, whoever credits it.
pub proof fn law_balance_tweak_is_kept(
    cfg: AmmConfigConsensus,
    fee_of: spec_fn(PoolId) -> u16,
    s: LedgerView,
    output: AmmOutput,
    key: BalanceKey,
)
    ensures
        output_effect(cfg, fee_of, s, output) matches Ok(after) ==> (at(s.balances, key) matches Some(
            before,
        ) ==> (at(after.balances, key) matches Some(now) && now.tweak == before.tweak
            && now.amount.msats >= before.amount.msats)),
{
}

/// What is deposited for a key that has a position already keeps the tweak that
/// was stored first.
pub proof fn law_position_tweak_is_kept(
    cfg: AmmConfigConsensus,
    fee_of: spec_fn(PoolId) -> u16,
    s: LedgerView,
    output: AmmOutput,
    key: LpPositionKey,
)
    ensures
        output_effect(cfg, fee_of, s, output) matches Ok(after) ==> (at(s.positions, key) matches Some(
            before,
        ) ==> (at(after.positions, key) matches Some(now) && now.tweak == before.tweak
            && now.shares >= before.shares)),
{
}

/// An output that does not prove possession of the key it names is refused
/// whatever the ledger holds, and so never influences it.
pub proof fn law_unproven_outputs_are_refused(
    cfg: AmmConfigConsensus,
    fee_of: spec_fn(PoolId) -> u16,
    s: LedgerView,
    output: AmmOutput,
)
    requires
        !output.pop_valid(),
    ensures
        output_effect(cfg, fee_of, s, output) == Err::<LedgerView, AmmOutputErrorView>(
            if output is Default {
                AmmOutputErrorView::UnknownVariant
            } else {
                AmmOutputErrorView::InvalidProofOfPossession
            },
        ),
{
}

/// A quote never disagrees with settlement: what was quoted is what settles, for
/// any least output up to it, unless the recipient's balance is at its cap; and
/// what a quote refuses, settlement refuses for the same reason.
pub proof fn law_quote_agrees_with_settlement(
    cfg: AmmConfigConsensus,
    fee: u16,
    pool: Pool,
    balance: Option<BalanceEntry>,
    unit_in: AmountUnit,
    unit_out: AmountUnit,
    amount_in: Amount,
    min_out: Amount,
    tweak: [u8; 16],
)
    requires
        unit_in != unit_out,
    ensures
        ({
            let pool_id = PoolId::of_units(unit_in, unit_out)->0;
            let settled = swap_settlement(
                cfg,
                fee,
                Some(pool),
                balance,
                unit_in,
                unit_out,
                amount_in,
                min_out,
                tweak,
            );
            let held: int = match balance {
                Some(entry) => entry.amount.msats as int,
                None => 0,
            };
            match quoted_swap(cfg, fee, pool, pool_id, unit_in, amount_in, None) {
                Ok(quote) => if quote.dy < min_out.msats {
                    settled == Err::<(Pool, BalanceEntry), AmmOutputErrorView>(
                        AmmOutputErrorView::SlippageExceeded,
                    )
                } else if balance is Some && held + quote.dy > MAX_RESERVE {
                    settled == Err::<(Pool, BalanceEntry), AmmOutputErrorView>(
                        AmmOutputErrorView::ReserveCapExceeded,
                    )
                } else {
                    settled matches Ok((_, entry)) && entry.amount.msats == held + quote.dy
                },
                Err(e) => settled matches Err(f) && (f == e || (e
                    == AmmOutputErrorView::ReserveCapExceeded && f
                    == AmmOutputErrorView::SlippageExceeded)),
            }
        }),
{
    PoolId::lemma_over(unit_in, unit_out);
    PoolId::lemma_over(unit_out, unit_in);
}

/// A withdrawal whose bounds leave one payout only is exact or refused.
pub proof fn law_withdrawal_with_tight_bounds_is_exact(
    pool: Option<Pool>,
    position: Option<LpPosition>,
    shares: u64,
    lo: Amount,
    hi: Amount,
)
    ensures
        withdrawal_settlement(pool, position, shares, lo, hi, lo, hi) matches Ok(w) ==> w.lo == lo
            && w.hi == hi,
{
}

/// Once a pool exists it never runs out of shares: those that were set aside for
/// nobody stay, whoever withdraws what.
pub proof fn law_pool_keeps_its_minimum(ledger: Ledger, pool: PoolId)
    requires
        ledger.shares_accounted(),
    ensures
        ledger.pools.lookup(PoolKey(pool)) matches Some(p) ==> p.total_shares >= MINIMUM_LIQUIDITY,
{
    lemma_owned_nonnegative(ledger, pool);
    let owned = ledger.owned_shares(pool);
}

/// No owner holds more than the pool's shares without the ones set aside.
pub proof fn law_no_owner_holds_the_minimum(ledger: Ledger, key: LpPositionKey)
    requires
        ledger.wf(),
        ledger.shares_accounted(),
        ledger.positions.lookup(key) is Some,
    ensures
        ledger.pools.lookup(PoolKey(key.pool)) matches Some(p) ==> p.total_shares
            >= ledger.positions.lookup(key)->0.shares + MINIMUM_LIQUIDITY,
        ledger.positions.lookup(key)->0.shares > 0 ==> ledger.pools.lookup(PoolKey(key.pool))
            is Some,
{
    let i = ledger.positions.lemma_has_row(key);
    lemma_total_at_least(ledger.positions.rows(), shares_part(key.pool), i);
    let owned = ledger.owned_shares(key.pool);
}

/// An input of an unknown kind, or an output of one, is refused.
pub proof fn law_unknown_kinds_are_refused(
    cfg: AmmConfigConsensus,
    fee_of: spec_fn(PoolId) -> u16,
    s: LedgerView,
    input: AmmInput,
    output: AmmOutput,
)
    requires
        input is Default,
        output is Default,
    ensures
        input_effect(s, input) == Err::<LedgerView, AmmInputErrorView>(
            AmmInputErrorView::UnknownVariant,
        ),
        output_effect(cfg, fee_of, s, output) == Err::<LedgerView, AmmOutputErrorView>(
            AmmOutputErrorView::UnknownVariant,
        ),
{
}

/// The sum of the items of a balance sheet.
pub open spec fn sum_of(items: Seq<i64>) -> int
    decreases items.len(),
{
    if items.len() == 0 {
        0
    } else {
        sum_of(items.drop_last()) + items.last()
    }
}

proof fn lemma_sum_split(a: Seq<i64>, b: Seq<i64>)
    ensures
        sum_of(a + b) == sum_of(a) + sum_of(b),
    decreases b.len(),
{
    if b.len() == 0 {
        assert(a + b =~= a);
    } else {
        assert((a + b).drop_last() =~= a + b.drop_last());
        lemma_sum_split(a, b.drop_last());
    }
}

/// The items of pools sum to minus their reserves.
proof fn lemma_pool_items(pools: Seq<(PoolKey, Pool)>)
    requires
        forall|i: int|
            0 <= i < pools.len() ==> (#[trigger] pools[i]).1.reserve_lo.msats <= MAX_RESERVE
                && pools[i].1.reserve_hi.msats <= MAX_RESERVE,
    ensures
        sum_of(low_items(pools)) + sum_of(high_items(pools)) == -seq_total(pools, reserves_part()),
    decreases pools.len(),
{
    let los = low_items(pools);
    let his = high_items(pools);
    if pools.len() > 0 {
        let front = pools.drop_last();
        assert forall|i: int| 0 <= i < front.len() implies (
        #[trigger] front[i]).1.reserve_lo.msats <= MAX_RESERVE && front[i].1.reserve_hi.msats
            <= MAX_RESERVE by {
            assert(front[i] == pools[i]);
        }
        lemma_pool_items(front);
        assert(los.drop_last() =~= low_items(front));
        assert(his.drop_last() =~= high_items(front));
        assert(pools[pools.len() - 1].1.reserve_lo.msats <= MAX_RESERVE);
    }
}

/// The items of balances sum to minus their amounts.
proof fn lemma_balance_items(balances: Seq<(BalanceKey, BalanceEntry)>)
    requires
        forall|i: int|
            0 <= i < balances.len() ==> (#[trigger] balances[i]).1.amount.msats <= MAX_RESERVE,
    ensures
        sum_of(balance_items(balances)) == -seq_total(balances, amount_part()),
    decreases balances.len(),
{
    let items = balance_items(balances);
    if balances.len() > 0 {
        let front = balances.drop_last();
        assert forall|i: int| 0 <= i < front.len() implies (#[trigger] front[i]).1.amount.msats
            <= MAX_RESERVE by {
            assert(front[i] == balances[i]);
        }
        lemma_balance_items(front);
        assert(items.drop_last() =~= balance_items(front));
        assert(balances[balances.len() - 1].1.amount.msats <= MAX_RESERVE);
    }
}

/// The balance sheet sums to minus all that is owed: both reserves of every pool
/// and every balance, and nothing for positions.
pub proof fn law_audit_sums_to_what_is_owed(ledger: Ledger)
    requires
        ledger.wf(),
        ledger.bounded(),
    ensures
        sum_of(audit_items(ledger.pools.rows(), ledger.balances.rows())) == -ledger.owed(),
{
    let pools = ledger.pools.rows();
    let balances = ledger.balances.rows();
    assert forall|i: int| 0 <= i < pools.len() implies (#[trigger] pools[i]).1.reserve_lo.msats
        <= MAX_RESERVE && pools[i].1.reserve_hi.msats <= MAX_RESERVE by {
        ledger.pools.lemma_row(i);
    }
    assert forall|i: int| 0 <= i < balances.len() implies (#[trigger] balances[i]).1.amount.msats
        <= MAX_RESERVE by {
        ledger.balances.lemma_row(i);
    }
    lemma_pool_items(pools);
    lemma_balance_items(balances);
    lemma_sum_split(low_items(pools), high_items(pools));
    lemma_sum_split(low_items(pools) + high_items(pools), balance_items(balances));
}

/// The sum of the balance sheet moves by exactly what is owed more or less. What
/// an accepted item consumes or provides is what is owed more or less by the
/// contracts of processing, so the balance sheet follows the amounts of every
/// item.
pub proof fn law_audit_moves_by_what_is_owed(before: Ledger, after: Ledger, more: int)
    requires
        before.wf(),
        before.bounded(),
        after.wf(),
        after.bounded(),
        after.owed() == before.owed() + more,
    ensures
        sum_of(audit_items(after.pools.rows(), after.balances.rows())) == sum_of(
            audit_items(before.pools.rows(), before.balances.rows()),
        ) - more,
{
    law_audit_sums_to_what_is_owed(before);
    law_audit_sums_to_what_is_owed(after);
}

} // verus!
