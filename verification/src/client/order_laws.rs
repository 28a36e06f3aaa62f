//! What the client orders, in plain numbers, and why it does not.

use vstd::prelude::*;

use crate::client::db::LpPositionRecord;
use crate::client::derivation::{ModuleSecret, CHILD_LP};
use crate::client::module::{
    deposit_terms, is_first_report, is_reported, reported_pool, swap_terms,
    withdraw_terms, ClientError,
};
use crate::client::slippage::law_least_is_the_amount_less_the_tolerance;
use crate::config::AmmClientConfig;
use crate::crypto::PublicKey;
use crate::endpoints::PoolSummary;
use crate::math::{burn_outcome, mint_outcome};
use crate::pool_id::PoolId;
use crate::units::{Amount, AmountUnit};

verus! {

/// A pool is taken as its first report has it, and as empty where there is none.
pub proof fn law_a_pool_is_taken_as_first_reported(pools: Seq<PoolSummary>, pool: PoolId)
    ensures
        forall|i: int| #[trigger]
            is_first_report(pools, pool, i) ==> reported_pool(pools, pool) == (
                pools[i].reserve_lo.msats,
                pools[i].reserve_hi.msats,
                pools[i].total_shares,
            ),
        !is_reported(pools, pool) ==> reported_pool(pools, pool) == (0u64, 0u64, 0u64),
    decreases pools.len(),
{
    if pools.len() > 0 && pools[0].pool != pool {
        let rest = pools.skip(1);
        law_a_pool_is_taken_as_first_reported(rest, pool);
        assert forall|i: int| #[trigger]
            is_first_report(pools, pool, i) implies is_first_report(rest, pool, i - 1)
            && rest[i - 1] == pools[i] by {
            assert forall|j: int| 0 <= j < i - 1 implies (#[trigger] rest[j]).pool != pool by {
                assert(rest[j] == pools[j + 1]);
            }
        }
        if is_reported(rest, pool) {
            let i = choose|i: int| 0 <= i < rest.len() && (#[trigger] rest[i]).pool == pool;
            assert(pools[i + 1].pool == pool);
        }
    } else if pools.len() > 0 {
        assert(pools[0].pool == pool);
        assert forall|i: int| #[trigger] is_first_report(pools, pool, i) implies i == 0 by {
            if i > 0 {
                assert(pools[0].pool != pool);
            }
        }
    }
}

/// A swap can be ordered between two different units that the market knows, with a
/// tolerance of at most the whole. It then asks for the quote less the tolerance,
/// rounded down. Otherwise the first of these that fails is named.
pub proof fn law_a_swap_asks_for_its_quote_less_the_tolerance(
    cfg: AmmClientConfig,
    unit_in: AmountUnit,
    unit_out: AmountUnit,
    max_slippage_bps: u64,
    quoted: Amount,
)
    ensures
        ({
            let known = cfg.units.lookup(unit_in) is Some && cfg.units.lookup(unit_out) is Some;
            match swap_terms(cfg, unit_in, unit_out, max_slippage_bps, quoted) {
                Ok(least) => {
                    &&& unit_in.id != unit_out.id && known && max_slippage_bps <= 10_000
                    &&& least * 10_000 <= quoted.msats * (10_000 - max_slippage_bps) < (least + 1)
                        * 10_000
                },
                Err(ClientError::IdenticalUnits) => unit_in.id == unit_out.id,
                Err(ClientError::UnknownUnit) => unit_in.id != unit_out.id && !known,
                Err(ClientError::Slippage(_)) => unit_in.id != unit_out.id && known
                    && max_slippage_bps > 10_000,
                Err(_) => false,
            }
        }),
{
    law_least_is_the_amount_less_the_tolerance(quoted.msats, max_slippage_bps);
}

/// A deposit can be ordered into a pool over two units that the market knows, if
/// the curve takes it and the tolerance is at most the whole. It then expects what
/// the curve mints for its owner and asks for that less the tolerance, rounded
/// down. Otherwise the first of these that fails is named.
pub proof fn law_a_deposit_asks_for_its_preview_less_the_tolerance(
    cfg: AmmClientConfig,
    pool: PoolId,
    amount_lo: Amount,
    amount_hi: Amount,
    max_slippage_bps: u64,
    pools: Seq<PoolSummary>,
)
    ensures
        ({
            let known = cfg.units.lookup(pool.low()) is Some && cfg.units.lookup(pool.high()) is Some;
            let (reserve_lo, reserve_hi, total_shares) = reported_pool(pools, pool);
            let curve = mint_outcome(
                reserve_lo,
                reserve_hi,
                total_shares,
                amount_lo.msats,
                amount_hi.msats,
            );
            match deposit_terms(cfg, pool, amount_lo, amount_hi, max_slippage_bps, pools) {
                Ok((expected, least)) => {
                    &&& known && max_slippage_bps <= 10_000
                    &&& curve matches Ok(minted) && minted.to_owner == expected
                    &&& least * 10_000 <= expected * (10_000 - max_slippage_bps) < (least + 1)
                        * 10_000
                },
                Err(ClientError::UnknownUnit) => !known,
                Err(ClientError::Curve(e)) => known && (curve matches Err(f) && f == e),
                Err(ClientError::Slippage(_)) => known && curve is Ok && max_slippage_bps > 10_000,
                Err(_) => false,
            }
        }),
{
    let (reserve_lo, reserve_hi, total_shares) = reported_pool(pools, pool);
    let curve = mint_outcome(
        reserve_lo,
        reserve_hi,
        total_shares,
        amount_lo.msats,
        amount_hi.msats,
    );
    if let Ok(minted) = curve {
        law_least_is_the_amount_less_the_tolerance(minted.to_owner, max_slippage_bps);
    }
}

/// A withdrawal can be ordered of a position that the client remembers, of some
/// shares, if the position's tweak leads to its key and the pool is reported. It
/// then has to pay exactly what the curve pays. Otherwise the first of these that
/// fails is named.
pub proof fn law_a_withdrawal_asks_for_what_the_curve_pays(
    root: ModuleSecret,
    record: Option<LpPositionRecord>,
    pool: PoolId,
    owner_pk: PublicKey,
    shares: u64,
    pools: Seq<PoolSummary>,
)
    ensures
        ({
            let (reserve_lo, reserve_hi, total_shares) = reported_pool(pools, pool);
            let curve = burn_outcome(reserve_lo, reserve_hi, total_shares, shares);
            let own = record is Some && root.public_key(CHILD_LP, record->0.tweak) == Some(
                owner_pk.bytes@,
            );
            match withdraw_terms(root, record, pool, owner_pk, shares, pools) {
                Ok((pays_lo, pays_hi)) => {
                    &&& own && shares > 0 && is_reported(pools, pool)
                    &&& curve matches Ok(burned) && burned.da == pays_lo && burned.db == pays_hi
                },
                Err(ClientError::UnknownPosition) => record is None,
                Err(ClientError::ZeroShares) => record is Some && shares == 0,
                Err(ClientError::WrongTweak) => record is Some && shares > 0 && !own,
                Err(ClientError::NoSuchPool) => own && shares > 0 && !is_reported(pools, pool),
                Err(ClientError::Curve(e)) => own && shares > 0 && is_reported(pools, pool) && (
                curve matches Err(f) && f == e),
                Err(_) => false,
            }
        }),
{
}

} // verus!
