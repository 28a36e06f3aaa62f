//! How what the client orders meets what the guardians settle.

use vstd::prelude::*;

use crate::client::db::LpPositionRecord;
use crate::client::derivation::{is_own, ModuleSecret, CHILD_LP, CHILD_SWAP};
use crate::client::module::{
    deposit_terms, reported_pool, swap_terms, withdraw_terms, ClientError,
};
use crate::client::recovery::{
    law_a_walk_keeps_exactly_its_own_balances, law_a_walk_keeps_exactly_its_own_positions,
    own_balances, own_positions,
};
use crate::client::slippage::law_tolerance_is_monotone;
use crate::config::{AmmClientConfig, AmmConfigConsensus};
use crate::crypto::PublicKey;
use crate::endpoints::{BalanceRecoveryEntry, LpRecoveryEntry, PoolSummary};
use crate::math_laws::law_swap_never_drains_and_never_overflows;
use crate::pool_id::PoolId;
use crate::server::api::{balance_entry_of, lp_entry_of};
use crate::server::db::{BalanceKey, LpPosition, LpPositionKey, Pool, PoolKey};
use crate::server::laws::law_quote_agrees_with_settlement;
use crate::server::ledger::{at, input_effect, input_value, output_effect, LedgerView};
use crate::server::settle::{
    deposit_settlement, pool_or_empty, quoted_swap, swap_settlement, withdrawal_settlement,
};
use crate::types::{AmmInput, AmmOutput};
use crate::units::{Amount, AmountUnit};

verus! {

/// A swap ordered from a quote settles at the quote, as long as the pool and the
/// fee are still what was quoted, for every tolerance: a fresh recipient is
/// credited with exactly what was quoted.
pub proof fn law_a_swap_settles_at_its_quote(
    client: AmmClientConfig,
    cfg: AmmConfigConsensus,
    fee: u16,
    pool: Pool,
    unit_in: AmountUnit,
    unit_out: AmountUnit,
    amount_in: Amount,
    max_slippage_bps: u64,
    tweak: [u8; 16],
)
    requires
        unit_in != unit_out,
    ensures
        ({
            let pool_id = PoolId::of_units(unit_in, unit_out)->0;
            quoted_swap(cfg, fee, pool, pool_id, unit_in, amount_in, None) matches Ok(quote) ==> (
            swap_terms(
                client,
                unit_in,
                unit_out,
                max_slippage_bps,
                Amount { msats: quote.dy },
            ) matches Ok(least) ==> (swap_settlement(
                cfg,
                fee,
                Some(pool),
                None,
                unit_in,
                unit_out,
                amount_in,
                Amount { msats: least },
                tweak,
            ) matches Ok((_, entry)) && entry.amount.msats == quote.dy && entry.tweak == tweak))
        }),
{
    let pool_id = PoolId::of_units(unit_in, unit_out)->0;
    if let Ok(quote) = quoted_swap(cfg, fee, pool, pool_id, unit_in, amount_in, None) {
        if let Ok(least) = swap_terms(
            client,
            unit_in,
            unit_out,
            max_slippage_bps,
            Amount { msats: quote.dy },
        ) {
            law_tolerance_is_monotone(quote.dy, 0, max_slippage_bps);
            law_quote_agrees_with_settlement(
                cfg,
                fee,
                pool,
                None,
                unit_in,
                unit_out,
                amount_in,
                Amount { msats: least },
                tweak,
            );
            PoolId::lemma_over(unit_in, unit_out);
            PoolId::lemma_over(unit_out, unit_in);
        }
    }
}

/// A deposit ordered from a report mints exactly the shares that its preview
/// promised, as long as the pool is still what was reported.
pub proof fn law_a_deposit_mints_its_preview(
    client: AmmClientConfig,
    cfg: AmmConfigConsensus,
    pool_id: PoolId,
    pool: Option<Pool>,
    amount_lo: Amount,
    amount_hi: Amount,
    max_slippage_bps: u64,
    pools: Seq<PoolSummary>,
    tweak: [u8; 16],
)
    requires
        cfg.units.lookup(pool_id.low()) is Some,
        cfg.units.lookup(pool_id.high()) is Some,
        reported_pool(pools, pool_id) == ({
            let p = pool_or_empty(pool);
            (p.reserve_lo.msats, p.reserve_hi.msats, p.total_shares)
        }),
    ensures
        deposit_terms(
            client,
            pool_id,
            amount_lo,
            amount_hi,
            max_slippage_bps,
            pools,
        ) matches Ok((expected, least)) ==> (deposit_settlement(
            cfg,
            pool_id,
            pool,
            None,
            amount_lo,
            amount_hi,
            least,
            tweak,
        ) matches Ok((_, position)) && position.shares == expected && position.tweak == tweak),
{
    if let Ok((expected, least)) = deposit_terms(
        client,
        pool_id,
        amount_lo,
        amount_hi,
        max_slippage_bps,
        pools,
    ) {
        law_tolerance_is_monotone(expected, 0, max_slippage_bps);
    }
}

/// A withdrawal ordered from a report pays exactly what was previewed, or is
/// refused; as long as the pool is still what was reported and the shares are
/// held, it is paid.
pub proof fn law_a_withdrawal_pays_its_preview(
    root: ModuleSecret,
    record: Option<LpPositionRecord>,
    pool_id: PoolId,
    owner_pk: PublicKey,
    shares: u64,
    pools: Seq<PoolSummary>,
    pool: Option<Pool>,
    position: Option<LpPosition>,
)
    ensures
        withdraw_terms(root, record, pool_id, owner_pk, shares, pools) matches Ok((lo, hi)) ==> {
            let settled = withdrawal_settlement(
                pool,
                position,
                shares,
                Amount { msats: lo },
                Amount { msats: hi },
                Amount { msats: lo },
                Amount { msats: hi },
            );
            &&& settled matches Ok(w) ==> w.lo.msats == lo && w.hi.msats == hi
            &&& match (pool, position) {
                (Some(p), Some(q)) => reported_pool(pools, pool_id) == (
                    p.reserve_lo.msats,
                    p.reserve_hi.msats,
                    p.total_shares,
                ) && q.shares >= shares ==> settled is Ok,
                _ => true,
            }
        },
{
}

/// What a settled swap credits to a new key is found again from the secret
/// alone: wherever the guardians list it, a walk keeps it, and claiming it
/// provides all that was credited.
pub proof fn law_a_settled_swap_is_found_again(
    root: ModuleSecret,
    cfg: AmmConfigConsensus,
    fee_of: spec_fn(PoolId) -> u16,
    s: LedgerView,
    output: AmmOutput,
    entries: Seq<BalanceRecoveryEntry>,
)
    requires
        output matches AmmOutput::SwapV0 { unit_out, recipient_pk, tweak, .. } && is_own(
            root,
            CHILD_SWAP,
            tweak,
            recipient_pk,
        ) && at(s.balances, BalanceKey { owner: recipient_pk, unit: unit_out }) is None,
        output_effect(cfg, fee_of, s, output) is Ok,
    ensures
        ({
            let after = output_effect(cfg, fee_of, s, output)->Ok_0;
            output matches AmmOutput::SwapV0 { unit_out, recipient_pk, .. } && {
                let key = BalanceKey { owner: recipient_pk, unit: unit_out };
                let entry = balance_entry_of((key, after.balances[key]));
                let claim = AmmInput::ClaimBalanceV0 { pubkey: entry.pubkey, unit: entry.unit };
                &&& at(after.balances, key) is Some
                &&& entry.amount.msats > 0
                &&& entries.contains(entry) ==> own_balances(root, entries).contains(entry)
                &&& input_effect(after, claim) is Ok
                &&& input_value(after, claim, entry.unit) == entry.amount.msats
            }
        }),
{
    if let AmmOutput::SwapV0 { unit_in, unit_out, amount_in, recipient_pk, .. } = output {
        let after = output_effect(cfg, fee_of, s, output)->Ok_0;
        let key = BalanceKey { owner: recipient_pk, unit: unit_out };
        let entry = balance_entry_of((key, after.balances[key]));
        law_a_walk_keeps_exactly_its_own_balances(root, entries, entry);
        let pool_id = PoolId::of_units(unit_in, unit_out)->0;
        let pool = at(s.pools, PoolKey(pool_id))->0;
        law_swap_never_drains_and_never_overflows(
            pool.reserve_lo.msats,
            pool.reserve_hi.msats,
            amount_in.msats,
            fee_of(pool_id),
        );
        law_swap_never_drains_and_never_overflows(
            pool.reserve_hi.msats,
            pool.reserve_lo.msats,
            amount_in.msats,
            fee_of(pool_id),
        );
    }
}

/// The position of a settled deposit to a new key is found again from the secret
/// alone: wherever the guardians list it, a walk keeps it, and what is then
/// remembered of it is a position that the client can withdraw from.
pub proof fn law_a_settled_deposit_is_found_again(
    root: ModuleSecret,
    cfg: AmmConfigConsensus,
    fee_of: spec_fn(PoolId) -> u16,
    s: LedgerView,
    output: AmmOutput,
    entries: Seq<LpRecoveryEntry>,
    shares: u64,
    pools: Seq<PoolSummary>,
)
    requires
        output matches AmmOutput::DepositV0 { pool, owner_pk, tweak, .. } && is_own(
            root,
            CHILD_LP,
            tweak,
            owner_pk,
        ) && at(s.positions, LpPositionKey { pool, owner: owner_pk }) is None,
        output_effect(cfg, fee_of, s, output) is Ok,
    ensures
        ({
            let after = output_effect(cfg, fee_of, s, output)->Ok_0;
            output matches AmmOutput::DepositV0 { pool, owner_pk, .. } && {
                let key = LpPositionKey { pool, owner: owner_pk };
                let entry = lp_entry_of((key, after.positions[key]));
                let record = LpPositionRecord { tweak: entry.tweak, shares: entry.shares };
                &&& at(after.positions, key) is Some
                &&& entries.contains(entry) ==> own_positions(root, entries).contains(entry)
                &&& withdraw_terms(root, Some(record), pool, owner_pk, shares, pools) matches Err(
                    e,
                ) ==> e != ClientError::UnknownPosition && e != ClientError::WrongTweak
            }
        }),
{
    if let AmmOutput::DepositV0 { pool, owner_pk, .. } = output {
        let after = output_effect(cfg, fee_of, s, output)->Ok_0;
        let key = LpPositionKey { pool, owner: owner_pk };
        let entry = lp_entry_of((key, after.positions[key]));
        law_a_walk_keeps_exactly_its_own_positions(root, entries, entry);
    }
}

} // verus!
