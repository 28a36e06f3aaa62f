//! What the guardians' answers say of the ledger, in plain numbers.

use vstd::prelude::*;

use crate::endpoints::{
    ApiError, BalanceRequest, FeeVoteSubmitRequest, FeeVotesRequest, FeeVotesResponse, PoolSummary,
    QuoteRequest, QuoteResponse,
};
use crate::math_exact::law_impact_in_numbers;
use crate::pool_id::PoolId;
use crate::server::api::{
    audit_items, balance_answer, balance_entry, balance_entry_of, balance_items,
    fee_vote_submit_answer, fee_votes_answer, high_items, low_items, lp_entry, lp_entry_of,
    pools_answer, quote_answer,
};
use crate::server::db::{
    BalanceEntry, BalanceKey, DesiredFeeKey, FeeVoteKey, LpPosition, LpPositionKey, PeerId, Pool,
    PoolKey,
};
use crate::server::fees::{effective_fee, votes_in};
use crate::server::ledger::{Amm, Ledger};
use crate::server::settle_laws::{is_paid, is_pool_of};

verus! {

/// A quote is what the curve pays at the fee in force, for a swap between two
/// units that may be traded, of no less than the least that may be sold, which
/// leaves the reserve within the cap. Its impact is the part of a thousand by
/// which it falls short of the spot price, rounded up. Equal units and a pool
/// that does not exist are told apart by code and text.
pub proof fn law_a_quote_is_what_the_curve_pays(
    amm: Amm,
    ledger: Ledger,
    request: QuoteRequest,
    r: Result<QuoteResponse, ApiError>,
    id: PoolId,
)
    requires
        quote_answer(amm, ledger, request, r),
        request.unit_in.id != request.unit_out.id ==> is_pool_of(
            id,
            request.unit_in,
            request.unit_out,
        ),
    ensures
        ({
            let pools = ledger.pools.view();
            let pool = pools[PoolKey(id)];
            let fee = effective_fee(amm.cfg, amm.num_peers as int, ledger.fee_votes.rows(), id);
            let amount_in = request.amount_in.msats;
            let (reserve_in, reserve_out) = if request.unit_in.id < request.unit_out.id {
                (pool.reserve_lo.msats, pool.reserve_hi.msats)
            } else {
                (pool.reserve_hi.msats, pool.reserve_lo.msats)
            };
            match r {
                Ok(response) => {
                    let paid = response.amount_out.msats;
                    let impact = response.price_impact_per_mille;
                    let fair = amount_in * reserve_out;
                    let got = paid * reserve_in;
                    &&& request.unit_in.id != request.unit_out.id
                    &&& pools.dom().contains(PoolKey(id))
                    &&& is_paid(
                        pool,
                        request.unit_in,
                        request.unit_out,
                        request.amount_in,
                        fee,
                        paid,
                    )
                    &&& amm.cfg.units.lookup(request.unit_in) matches Some(params) && amount_in
                        >= params.min_swap_in.msats
                    &&& amm.cfg.units.lookup(request.unit_out) is Some
                    &&& reserve_in + amount_in <= 288_230_376_151_711_744
                    &&& 0 <= impact <= 1000
                    &&& fair == 0 || got >= fair ==> impact == 0
                    &&& fair > 0 && got < fair ==> impact > 0 && (1000 - impact) * fair <= 1000
                        * got < (1001 - impact) * fair
                },
                Err(e) => {
                    &&& e.code == 404 <==> request.unit_in.id != request.unit_out.id
                        && !pools.dom().contains(PoolKey(id))
                    &&& e.code == 404 || e.code == 400
                    &&& e.code == 404 ==> e.message@ == "no such pool"@
                    &&& request.unit_in.id == request.unit_out.id ==> e.message@
                        == "unit_in and unit_out must differ"@
                },
            }
        }),
{
    PoolId::lemma_over(request.unit_in, request.unit_out);
    PoolId::lemma_over(request.unit_out, request.unit_in);
    id.lemma_is_over();
    if request.unit_in.id != request.unit_out.id {
        let of = PoolId::of_units(request.unit_in, request.unit_out)->0;
        of.lemma_is_over();
        assert(of.low() == id.low() && of.high() == id.high());
        assert(of == id);
        if let Ok(response) = r {
            let pool = ledger.pools.view()[PoolKey(id)];
            law_impact_in_numbers(
                pool.reserve_lo.msats,
                pool.reserve_hi.msats,
                request.amount_in.msats,
                response.amount_out.msats,
            );
            law_impact_in_numbers(
                pool.reserve_hi.msats,
                pool.reserve_lo.msats,
                request.amount_in.msats,
                response.amount_out.msats,
            );
        }
    }
}

/// The answer on a balance is what is recorded under its key and unit, and none
/// where nothing is.
pub proof fn law_a_balance_is_answered_as_recorded(ledger: Ledger, request: BalanceRequest)
    ensures
        ({
            let key = BalanceKey { owner: request.pubkey, unit: request.unit };
            let balances = ledger.balances.view();
            match balance_answer(ledger, request) {
                Some(amount) => balances.dom().contains(key) && amount == balances[key].amount,
                None => !balances.dom().contains(key),
            }
        }),
{
}

/// The list of pools holds each pool of the ledger once and no other, with its
/// reserves, its shares and the fee in force.
pub proof fn law_the_list_of_pools_is_complete(amm: Amm, ledger: Ledger, r: Vec<PoolSummary>)
    requires
        ledger.wf(),
        pools_answer(amm, ledger, r),
    ensures
        forall|id: PoolId| #[trigger]
            ledger.pools.view().dom().contains(PoolKey(id)) ==> exists|i: int|
                0 <= i < r@.len() && (#[trigger] r@[i]).pool == id,
        forall|i: int, j: int|
            0 <= i < j < r@.len() ==> (#[trigger] r@[i]).pool != (#[trigger] r@[j]).pool,
        forall|i: int|
            0 <= i < r@.len() ==> {
                let listed = #[trigger] r@[i];
                let pool = ledger.pools.view()[PoolKey(listed.pool)];
                &&& ledger.pools.view().dom().contains(PoolKey(listed.pool))
                &&& listed.reserve_lo == pool.reserve_lo
                &&& listed.reserve_hi == pool.reserve_hi
                &&& listed.total_shares == pool.total_shares
                &&& listed.fee_per_mille == effective_fee(
                    amm.cfg,
                    amm.num_peers as int,
                    ledger.fee_votes.rows(),
                    listed.pool,
                )
            },
{
    let rows = ledger.pools.rows();
    assert forall|id: PoolId| #[trigger]
        ledger.pools.view().dom().contains(PoolKey(id)) implies exists|i: int|
        0 <= i < r@.len() && (#[trigger] r@[i]).pool == id by {
        let i = ledger.pools.lemma_has_row(PoolKey(id));
        assert(r@[i].pool == id);
    }
    assert forall|i: int| 0 <= i < r@.len() implies {
        let listed = #[trigger] r@[i];
        let pool = ledger.pools.view()[PoolKey(listed.pool)];
        &&& ledger.pools.view().dom().contains(PoolKey(listed.pool))
        &&& rows[i] == (PoolKey(listed.pool), pool)
    } by {
        ledger.pools.lemma_row(i);
    }
    assert forall|i: int, j: int| 0 <= i < j < r@.len() implies (#[trigger] r@[i]).pool != (
    #[trigger] r@[j]).pool by {
        ledger.pools.lemma_rows_distinct(i, j);
    }
}

/// The answer on a pool's votes holds every recorded vote on it and no other, the
/// fee in force and the band.
pub proof fn law_the_votes_answered_are_those_recorded(
    amm: Amm,
    ledger: Ledger,
    request: FeeVotesRequest,
    r: FeeVotesResponse,
)
    requires
        ledger.wf(),
        fee_votes_answer(amm, ledger, request, r),
    ensures
        forall|peer: PeerId, fee: u16| #[trigger]
            r.votes@.contains((peer, fee)) <==> {
                let key = FeeVoteKey { pool: request.pool, peer };
                ledger.fee_votes.view().dom().contains(key) && ledger.fee_votes.view()[key] == fee
            },
        r.effective_fee_per_mille == effective_fee(
            amm.cfg,
            amm.num_peers as int,
            ledger.fee_votes.rows(),
            request.pool,
        ),
        r.min_fee_per_mille == amm.cfg.min_fee_per_mille,
        r.max_fee_per_mille == amm.cfg.max_fee_per_mille,
{
    let rows = ledger.fee_votes.rows();
    assert forall|peer: PeerId, fee: u16| #[trigger] r.votes@.contains((peer, fee)) <==> {
        let key = FeeVoteKey { pool: request.pool, peer };
        ledger.fee_votes.view().dom().contains(key) && ledger.fee_votes.view()[key] == fee
    } by {
        let key = FeeVoteKey { pool: request.pool, peer };
        lemma_vote_is_a_row(rows, request.pool, peer, fee);
        if rows.contains((key, fee)) {
            let i = choose|i: int| 0 <= i < rows.len() && rows[i] == (key, fee);
            ledger.fee_votes.lemma_row(i);
        }
        if ledger.fee_votes.view().dom().contains(key) {
            let i = ledger.fee_votes.lemma_has_row(key);
            assert(rows.contains(rows[i]));
        }
    }
}

/// A vote on a pool is a row of the table.
proof fn lemma_vote_is_a_row(rows: Seq<(FeeVoteKey, u16)>, pool: PoolId, peer: PeerId, fee: u16)
    ensures
        votes_in(rows, pool).contains((peer, fee)) <==> rows.contains(
            (FeeVoteKey { pool, peer }, fee),
        ),
    decreases rows.len(),
{
    if rows.len() > 0 {
        let front = rows.drop_last();
        let last = rows.last();
        let before = votes_in(front, pool);
        let all = votes_in(rows, pool);
        let row = (FeeVoteKey { pool, peer }, fee);
        lemma_vote_is_a_row(front, pool, peer, fee);
        assert(rows =~= front.push(last));
        if before.contains((peer, fee)) {
            let i = choose|i: int| 0 <= i < before.len() && before[i] == (peer, fee);
            assert(all[i] == (peer, fee));
            let k = choose|k: int| 0 <= k < front.len() && front[k] == row;
            assert(rows[k] == row);
        } else if last == row {
            assert(all[all.len() - 1] == (peer, fee));
            assert(rows[rows.len() - 1] == row);
        } else {
            assert(!rows.contains(row)) by {
                if rows.contains(row) {
                    let k = choose|k: int| 0 <= k < rows.len() && rows[k] == row;
                    assert(front[k] == row);
                }
            }
            assert(!all.contains((peer, fee))) by {
                if all.contains((peer, fee)) {
                    let k = choose|k: int| 0 <= k < all.len() && all[k] == (peer, fee);
                    if k < before.len() {
                        assert(before[k] == (peer, fee));
                    } else {
                        assert(last.0.pool == pool && last.0.peer == peer && last.1 == fee);
                    }
                }
            }
        }
    } else {
        assert(!votes_in(rows, pool).contains((peer, fee)));
        assert(!rows.contains((FeeVoteKey { pool, peer }, fee)));
    }
}

/// A guardian's intent is taken down exactly when the caller is its operator, the
/// fee lies in the band and the pool exists; it then replaces the one before.
/// Otherwise nothing changes, and the code tells which of the three is missing.
pub proof fn law_an_intent_is_taken_down_for_a_reason(
    amm: Amm,
    before: Ledger,
    after: Ledger,
    authenticated: bool,
    request: FeeVoteSubmitRequest,
    r: Result<(), ApiError>,
)
    requires
        fee_vote_submit_answer(amm, before, after, authenticated, request, r),
    ensures
        ({
            let in_band = request.fee_per_mille >= amm.cfg.min_fee_per_mille
                && request.fee_per_mille <= amm.cfg.max_fee_per_mille;
            let exists_pool = before.pools.view().dom().contains(PoolKey(request.pool));
            let key = DesiredFeeKey(request.pool);
            let intents = after.desired_fees.view();
            &&& r is Ok <==> authenticated && in_band && exists_pool
            &&& r is Ok ==> {
                &&& intents.dom().contains(key) && intents[key] == request.fee_per_mille
                &&& intents.remove(key) == before.desired_fees.view().remove(key)
            }
            &&& r matches Err(e) ==> {
                &&& after == before
                &&& e.code == 401 <==> !authenticated
                &&& e.code == 400 <==> authenticated && !in_band
                &&& e.code == 404 <==> authenticated && in_band && !exists_pool
            }
            &&& after.pools == before.pools && after.balances == before.balances
            &&& after.positions == before.positions && after.fee_votes == before.fee_votes
        }),
{
    if r is Ok {
        let key = DesiredFeeKey(request.pool);
        assert(after.desired_fees.view().remove(key) =~= before.desired_fees.view().remove(key));
    }
}

/// The balance sheet holds one item for each low reserve, one for each high
/// reserve and one for each balance, in that order and in the order of the
/// tables, each the amount with its sign turned round.
pub proof fn law_the_balance_sheet_holds_every_amount_once(
    pools: Seq<(PoolKey, Pool)>,
    balances: Seq<(BalanceKey, BalanceEntry)>,
)
    requires
        forall|i: int|
            0 <= i < pools.len() ==> (#[trigger] pools[i]).1.reserve_lo.msats <= i64::MAX
                && pools[i].1.reserve_hi.msats <= i64::MAX,
        forall|i: int|
            0 <= i < balances.len() ==> (#[trigger] balances[i]).1.amount.msats <= i64::MAX,
    ensures
        ({
            let items = audit_items(pools, balances);
            let n = pools.len();
            &&& items.len() == 2 * n + balances.len()
            &&& forall|i: int|
                0 <= i < n ==> items[i] + (#[trigger] pools[i]).1.reserve_lo.msats == 0 && items[n
                    + i] + pools[i].1.reserve_hi.msats == 0
            &&& forall|i: int|
                0 <= i < balances.len() ==> items[2 * n + i] + (
                #[trigger] balances[i]).1.amount.msats == 0
        }),
{
    let items = audit_items(pools, balances);
    let n = pools.len();
    assert forall|i: int| 0 <= i < n implies items[i] + (
    #[trigger] pools[i]).1.reserve_lo.msats == 0 && items[n + i] + pools[i].1.reserve_hi.msats
        == 0 by {
        assert(items[i] == low_items(pools)[i]);
        assert(items[n + i] == high_items(pools)[i]);
    }
    assert forall|i: int| 0 <= i < balances.len() implies items[2 * n + i] + (
    #[trigger] balances[i]).1.amount.msats == 0 by {
        assert(items[2 * n + i] == balance_items(balances)[i]);
    }
}

/// What a recovery page says of a balance or a position is what is recorded: whose
/// it is, what of, how much, and the tweak it was made with.
pub proof fn law_a_recovery_entry_is_its_record(
    balance: (BalanceKey, BalanceEntry),
    position: (LpPositionKey, LpPosition),
)
    ensures
        ({
            let entry = balance_entry_of(balance);
            &&& entry.pubkey == balance.0.owner && entry.unit == balance.0.unit
            &&& entry.amount == balance.1.amount && entry.tweak == balance.1.tweak
            &&& balance_entry()(balance) == entry
        }),
        ({
            let entry = lp_entry_of(position);
            &&& entry.pubkey == position.0.owner && entry.pool == position.0.pool
            &&& entry.shares == position.1.shares && entry.tweak == position.1.tweak
            &&& lp_entry()(position) == entry
        }),
{
}

} // verus!
