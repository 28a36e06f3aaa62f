//! What the guardians answer when they are asked, and the balance sheet.

use vstd::prelude::*;
use vstd::string::*;

use crate::endpoints::{
    ApiError, BalanceRecoveryEntry, BalanceRecoveryResponse, BalanceRequest, FeeVoteSubmitRequest,
    FeeVotesRequest, FeeVotesResponse, LpRecoveryEntry, LpRecoveryResponse, PoolSummary,
    QuoteRequest, QuoteResponse, RecoveryPageRequest, BALANCE_ENDPOINT, BALANCE_RECOVERY_ENDPOINT,
    FEE_VOTES_ENDPOINT, FEE_VOTE_SUBMIT_ENDPOINT, LP_RECOVERY_ENDPOINT, POOLS_ENDPOINT,
    QUOTE_ENDPOINT,
};
use crate::math::{lemma_product_bound, price_impact, price_impact_per_mille, MAX_RESERVE};
use crate::pool_id::PoolId;
use crate::server::db::{
    BalanceEntry, BalanceKey, DbKeyPrefix, DesiredFeeKey, LpPosition, LpPositionKey, Pool, PoolKey,
};
use crate::server::dispatch::endpoint_names;
use crate::server::fees::{votes_for, votes_in};
use crate::server::ledger::{Amm, Ledger};
use crate::server::recovery::{
    cursor_view, recovery_page, recovery_page_limit, reply, CursorError,
};
use crate::server::settle::{quote_swap, quoted_swap};
use crate::table::{lemma_insert_keeps_keys_valid, TableKey};
use crate::text::{append_decimal, decimal};
use crate::units::Amount;

verus! {

/// How a pool is reported.
pub open spec fn summary_of(row: (PoolKey, Pool), fee: u16) -> PoolSummary {
    PoolSummary {
        pool: row.0.0,
        reserve_lo: row.1.reserve_lo,
        reserve_hi: row.1.reserve_hi,
        total_shares: row.1.total_shares,
        fee_per_mille: fee,
    }
}

/// How a balance is reported.
pub open spec fn balance_entry_of(row: (BalanceKey, BalanceEntry)) -> BalanceRecoveryEntry {
    BalanceRecoveryEntry {
        tweak: row.1.tweak,
        pubkey: row.0.owner,
        unit: row.0.unit,
        amount: row.1.amount,
    }
}

/// How balances are reported, row by row.
pub open spec fn balance_entry() -> spec_fn((BalanceKey, BalanceEntry)) -> BalanceRecoveryEntry {
    |row: (BalanceKey, BalanceEntry)| balance_entry_of(row)
}

/// How positions are reported, row by row.
pub open spec fn lp_entry() -> spec_fn((LpPositionKey, LpPosition)) -> LpRecoveryEntry {
    |row: (LpPositionKey, LpPosition)| lp_entry_of(row)
}

/// How a position is reported.
pub open spec fn lp_entry_of(row: (LpPositionKey, LpPosition)) -> LpRecoveryEntry {
    LpRecoveryEntry {
        tweak: row.1.tweak,
        pool: row.0.pool,
        pubkey: row.0.owner,
        shares: row.1.shares,
    }
}

/// The text that refuses a cursor.
pub open spec fn cursor_text(e: CursorError) -> Seq<char> {
    match e {
        CursorError::TooLarge => "cursor too large"@,
        CursorError::Malformed => "malformed recovery cursor"@,
    }
}

fn refuse_cursor(e: CursorError) -> (r: ApiError)
    ensures
        r.says(400, cursor_text(e)),
{
    match e {
        CursorError::TooLarge => ApiError::bad_request("cursor too large".to_owned()),
        CursorError::Malformed => ApiError::bad_request("malformed recovery cursor".to_owned()),
    }
}

/// The text that refuses a fee outside the band.
pub open spec fn band_text(min: u16, max: u16) -> Seq<char> {
    "fee_per_mille must be within ["@ + decimal(min as nat) + ", "@ + decimal(max as nat) + "]"@
}

fn band_message(min: u16, max: u16) -> (r: String)
    ensures
        r@ == band_text(min, max),
{
    let mut s: String = "fee_per_mille must be within [".to_owned();
    append_decimal(&mut s, min as u128);
    s.append(", ");
    append_decimal(&mut s, max as u128);
    s.append("]");
    s
}

/// Every pool, in the order of its units, with the fee in force.
pub open spec fn pools_answer(amm: Amm, ledger: Ledger, r: Vec<PoolSummary>) -> bool {
    &&& r@.len() == ledger.pools.rows().len()
    &&& forall|i: int|
        0 <= i < r@.len() ==> #[trigger] r@[i] == summary_of(
            ledger.pools.rows()[i],
            (amm.fees_in_force(ledger))(ledger.pools.rows()[i].0.0),
        )
}

/// What a swap would pay, or why it cannot be made.
pub open spec fn quote_answer(
    amm: Amm,
    ledger: Ledger,
    request: QuoteRequest,
    r: Result<QuoteResponse, ApiError>,
) -> bool {
    match PoolId::of_units(request.unit_in, request.unit_out) {
        None => r matches Err(e) && e.says(400, "unit_in and unit_out must differ"@),
        Some(pool_id) => match ledger.pools.lookup(PoolKey(pool_id)) {
            None => r matches Err(e) && e.says(404, "no such pool"@),
            Some(pool) => match quoted_swap(
                amm.cfg,
                (amm.fees_in_force(ledger))(pool_id),
                pool,
                pool_id,
                request.unit_in,
                request.amount_in,
                None,
            ) {
                Err(error) => r matches Err(e) && e.says(400, error.text()),
                Ok(quote) => r matches Ok(response) && response.amount_out.msats == quote.dy
                    && response.price_impact_per_mille == price_impact(
                    quote.reserve_in.msats as int,
                    quote.reserve_out.msats as int,
                    request.amount_in.msats as int,
                    quote.dy as int,
                ),
            },
        },
    }
}

/// What one key can claim in one unit.
pub open spec fn balance_answer(ledger: Ledger, request: BalanceRequest) -> Option<Amount> {
    match ledger.balances.lookup(BalanceKey { owner: request.pubkey, unit: request.unit }) {
        Some(entry) => Some(entry.amount),
        None => None,
    }
}

/// One page of all balances, or why the cursor is refused.
pub open spec fn balance_recovery_answer(
    ledger: Ledger,
    request: RecoveryPageRequest,
    r: Result<BalanceRecoveryResponse, ApiError>,
) -> bool {
    match reply(
        ledger.balances.rows(),
        cursor_view(request.cursor),
        request.limit,
        balance_entry(),
    ) {
        Err(error) => r matches Err(e) && e.says(400, cursor_text(error)),
        Ok((entries, next)) => r matches Ok(page) && page.entries@ == entries && cursor_view(
            page.next_cursor,
        ) == next,
    }
}

/// One page of all positions, or why the cursor is refused.
pub open spec fn lp_recovery_answer(
    ledger: Ledger,
    request: RecoveryPageRequest,
    r: Result<LpRecoveryResponse, ApiError>,
) -> bool {
    match reply(ledger.positions.rows(), cursor_view(request.cursor), request.limit, lp_entry()) {
        Err(error) => r matches Err(e) && e.says(400, cursor_text(error)),
        Ok((entries, next)) => r matches Ok(page) && page.entries@ == entries && cursor_view(
            page.next_cursor,
        ) == next,
    }
}

/// Whether an intent is taken down, and why not otherwise.
pub open spec fn fee_vote_submit_answer(
    amm: Amm,
    before: Ledger,
    after: Ledger,
    authenticated: bool,
    request: FeeVoteSubmitRequest,
    r: Result<(), ApiError>,
) -> bool {
    if !authenticated {
        (r matches Err(e) && e.says(401, "Invalid authorization"@)) && after
            == before
    } else if !(amm.cfg.min_fee_per_mille <= request.fee_per_mille
        <= amm.cfg.max_fee_per_mille) {
        (r matches Err(e) && e.says(
            400,
            band_text(amm.cfg.min_fee_per_mille, amm.cfg.max_fee_per_mille),
        )) && after == before
    } else if before.pools.lookup(PoolKey(request.pool)) is None {
        (r matches Err(e) && e.says(404, "no such pool"@)) && after == before
    } else {
        &&& r is Ok
        &&& after.desired_fees.view() == before.desired_fees.view().insert(
            DesiredFeeKey(request.pool),
            request.fee_per_mille,
        )
        &&& after.pools == before.pools
        &&& after.positions == before.positions
        &&& after.balances == before.balances
        &&& after.fee_votes == before.fee_votes
    }
}

/// The votes for a pool's fee, the fee they come to, and the band.
pub open spec fn fee_votes_answer(
    amm: Amm,
    ledger: Ledger,
    request: FeeVotesRequest,
    r: FeeVotesResponse,
) -> bool {
    &&& r.votes@ == votes_in(ledger.fee_votes.rows(), request.pool)
    &&& r.effective_fee_per_mille == (amm.fees_in_force(ledger))(request.pool)
    &&& r.min_fee_per_mille == amm.cfg.min_fee_per_mille
    &&& r.max_fee_per_mille == amm.cfg.max_fee_per_mille
}

impl Amm {
    /// The names under which [`Amm::answer`] answers.
    pub fn api_endpoints(&self) -> (r: Vec<&'static str>)
        ensures
            r@ == seq![
                POOLS_ENDPOINT,
                QUOTE_ENDPOINT,
                BALANCE_ENDPOINT,
                BALANCE_RECOVERY_ENDPOINT,
                LP_RECOVERY_ENDPOINT,
                FEE_VOTE_SUBMIT_ENDPOINT,
                FEE_VOTES_ENDPOINT,
            ],
            forall|i: int| 0 <= i < r@.len() ==> (#[trigger] r@[i])@ == endpoint_names()[i],
            r@.len() == endpoint_names().len(),
    {
        vec![
            POOLS_ENDPOINT,
            QUOTE_ENDPOINT,
            BALANCE_ENDPOINT,
            BALANCE_RECOVERY_ENDPOINT,
            LP_RECOVERY_ENDPOINT,
            FEE_VOTE_SUBMIT_ENDPOINT,
            FEE_VOTES_ENDPOINT,
        ]
    }

    /// Every pool, in the order of its units, with the fee in force.
    pub fn pools(&self, ledger: &Ledger) -> (r: Vec<PoolSummary>)
        requires
            self.wf(),
            ledger.wf(),
        ensures
            pools_answer(*self, *ledger, r),
    {
        let mut out: Vec<PoolSummary> = Vec::new();
        let n: usize = ledger.pools.len();
        let mut i: usize = 0;
        while i < n
            invariant
                self.wf(),
                n == ledger.pools.rows().len(),
                i <= n,
                out@.len() == i,
                forall|j: int|
                    0 <= j < i ==> #[trigger] out@[j] == summary_of(
                        ledger.pools.rows()[j],
                        (self.fees_in_force(*ledger))(ledger.pools.rows()[j].0.0),
                    ),
            decreases n - i,
        {
            let (key, pool) = ledger.pools.row(i);
            let fee_per_mille: u16 = self.consensus_fee_for(ledger, key.0);
            out.push(
                PoolSummary {
                    pool: key.0,
                    reserve_lo: pool.reserve_lo,
                    reserve_hi: pool.reserve_hi,
                    total_shares: pool.total_shares,
                    fee_per_mille,
                },
            );
            i = i + 1;
        }
        out
    }

    /// What a swap would pay, by the same pricing that settles it, at the fee in
    /// force.
    pub fn quote(&self, ledger: &Ledger, request: QuoteRequest) -> (r: Result<
        QuoteResponse,
        ApiError,
    >)
        requires
            self.wf(),
            ledger.wf(),
        ensures
            quote_answer(*self, *ledger, request, r),
    {
        let pool_id = match PoolId::new(request.unit_in, request.unit_out) {
            Some(pool_id) => pool_id,
            None => return Err(
                ApiError::bad_request("unit_in and unit_out must differ".to_owned()),
            ),
        };
        let pool = match ledger.pools.get(&PoolKey(pool_id)) {
            Some(pool) => pool,
            None => return Err(ApiError::not_found("no such pool".to_owned())),
        };
        let fee: u16 = self.consensus_fee_for(ledger, pool_id);
        let quote = match quote_swap(
            &self.cfg,
            fee,
            &pool,
            pool_id,
            request.unit_in,
            request.amount_in,
            None,
        ) {
            Ok(quote) => quote,
            Err(e) => return Err(ApiError::bad_request(e.message())),
        };
        proof {
            lemma_product_bound(
                1000 * quote.dy as int,
                quote.reserve_in.msats as int,
                1000 * MAX_RESERVE as int,
                MAX_RESERVE as int,
            );
        }
        let price_impact_per_mille: u64 = price_impact_per_mille(
            quote.reserve_in.msats,
            quote.reserve_out.msats,
            request.amount_in.msats,
            quote.dy,
        );
        Ok(QuoteResponse { amount_out: Amount { msats: quote.dy }, price_impact_per_mille })
    }

    /// What one key can claim in one unit.
    pub fn balance(&self, ledger: &Ledger, request: BalanceRequest) -> (r: Option<Amount>)
        requires
            ledger.wf(),
        ensures
            r == balance_answer(*ledger, request),
    {
        match ledger.balances.get(&BalanceKey { owner: request.pubkey, unit: request.unit }) {
            Some(entry) => Some(entry.amount),
            None => None,
        }
    }

    /// One page of all balances.
    pub fn balance_recovery(&self, ledger: &Ledger, request: &RecoveryPageRequest) -> (r: Result<
        BalanceRecoveryResponse,
        ApiError,
    >)
        requires
            ledger.wf(),
        ensures
            balance_recovery_answer(*ledger, *request, r),
    {
        let limit: usize = recovery_page_limit(request.limit);
        let (rows, next_cursor) = match recovery_page(
            &ledger.balances,
            DbKeyPrefix::Balance.as_byte(),
            &request.cursor,
            limit,
        ) {
            Ok(page) => page,
            Err(e) => return Err(refuse_cursor(e)),
        };
        let ghost mapped = rows@.map_values(balance_entry());
        let mut entries: Vec<BalanceRecoveryEntry> = Vec::new();
        let mut i: usize = 0;
        while i < rows.len()
            invariant
                i <= rows@.len(),
                mapped == rows@.map_values(balance_entry()),
                entries@ == mapped.take(i as int),
            decreases rows@.len() - i,
        {
            let (key, entry) = rows[i];
            entries.push(
                BalanceRecoveryEntry {
                    tweak: entry.tweak,
                    pubkey: key.owner,
                    unit: key.unit,
                    amount: entry.amount,
                },
            );
            i = i + 1;
            assert(entries@ =~= mapped.take(i as int));
        }
        assert(mapped.take(rows@.len() as int) =~= mapped);
        Ok(BalanceRecoveryResponse { entries, next_cursor })
    }

    /// One page of all positions.
    pub fn lp_recovery(&self, ledger: &Ledger, request: &RecoveryPageRequest) -> (r: Result<
        LpRecoveryResponse,
        ApiError,
    >)
        requires
            ledger.wf(),
        ensures
            lp_recovery_answer(*ledger, *request, r),
    {
        let limit: usize = recovery_page_limit(request.limit);
        let (rows, next_cursor) = match recovery_page(
            &ledger.positions,
            DbKeyPrefix::LpPosition.as_byte(),
            &request.cursor,
            limit,
        ) {
            Ok(page) => page,
            Err(e) => return Err(refuse_cursor(e)),
        };
        let ghost mapped = rows@.map_values(lp_entry());
        let mut entries: Vec<LpRecoveryEntry> = Vec::new();
        let mut i: usize = 0;
        while i < rows.len()
            invariant
                i <= rows@.len(),
                mapped == rows@.map_values(lp_entry()),
                entries@ == mapped.take(i as int),
            decreases rows@.len() - i,
        {
            let (key, position) = rows[i];
            entries.push(
                LpRecoveryEntry {
                    tweak: position.tweak,
                    pool: key.pool,
                    pubkey: key.owner,
                    shares: position.shares,
                },
            );
            i = i + 1;
            assert(entries@ =~= mapped.take(i as int));
        }
        assert(mapped.take(rows@.len() as int) =~= mapped);
        Ok(LpRecoveryResponse { entries, next_cursor })
    }

    /// Sets this guardian's own intent for a pool's fee. Only the guardian
    /// itself may, only within the band, and only for a pool that exists.
    pub fn fee_vote_submit(
        &self,
        ledger: &mut Ledger,
        authenticated: bool,
        request: FeeVoteSubmitRequest,
    ) -> (r: Result<(), ApiError>)
        requires
            old(ledger).wf(),
        ensures
            final(ledger).wf(),
            fee_vote_submit_answer(
                *self,
                *old(ledger),
                *final(ledger),
                authenticated,
                request,
                r,
            ),
            old(ledger).keys_valid() ==> final(ledger).keys_valid(),
    {
        if !authenticated {
            return Err(ApiError::unauthorized());
        }
        if !self.cfg.fee_in_band(request.fee_per_mille) {
            return Err(
                ApiError::bad_request(
                    band_message(self.cfg.min_fee_per_mille, self.cfg.max_fee_per_mille),
                ),
            );
        }
        if ledger.pools.get(&PoolKey(request.pool)).is_none() {
            return Err(ApiError::not_found("no such pool".to_owned()));
        }
        ledger.desired_fees.insert(DesiredFeeKey(request.pool), request.fee_per_mille);
        proof {
            let was = old(ledger).pools.lookup(PoolKey(request.pool));
            lemma_insert_keeps_keys_valid(
                old(ledger).desired_fees,
                ledger.desired_fees,
                DesiredFeeKey(request.pool),
                request.fee_per_mille,
            );
        }
        Ok(())
    }

    /// The votes for a pool's fee, the fee they come to, and the band.
    pub fn fee_votes(&self, ledger: &Ledger, request: FeeVotesRequest) -> (r: FeeVotesResponse)
        requires
            self.wf(),
            ledger.wf(),
        ensures
            fee_votes_answer(*self, *ledger, request, r),
    {
        FeeVotesResponse {
            votes: votes_for(&ledger.fee_votes, request.pool),
            effective_fee_per_mille: self.consensus_fee_for(ledger, request.pool),
            min_fee_per_mille: self.cfg.min_fee_per_mille,
            max_fee_per_mille: self.cfg.max_fee_per_mille,
        }
    }

    /// The balance sheet: one negative item for each reserve and each balance.
    /// Positions are left out, since reserves are counted already.
    pub fn audit(&self, ledger: &Ledger) -> (r: Vec<i64>)
        requires
            ledger.wf(),
            ledger.bounded(),
        ensures
            r@ == audit_items(ledger.pools.rows(), ledger.balances.rows()),
    {
        let mut items: Vec<i64> = Vec::new();
        let n: usize = ledger.pools.len();
        let ghost pools = ledger.pools.rows();
        let ghost los = low_items(pools);
        let ghost his = high_items(pools);
        let mut i: usize = 0;
        while i < n
            invariant
                ledger.wf(),
                ledger.bounded(),
                n == pools.len(),
                pools == ledger.pools.rows(),
                i <= n,
                los == low_items(pools),
                items@ == los.take(i as int),
            decreases n - i,
        {
            let (key, pool) = ledger.pools.row(i);
            proof {
                ledger.pools.lemma_row(i as int);
            }
            items.push(-(pool.reserve_lo.msats as i64));
            i = i + 1;
            assert(items@ =~= los.take(i as int));
        }
        assert(los.take(n as int) =~= los);
        assert(items@ =~= los + his.take(0));
        i = 0;
        while i < n
            invariant
                ledger.wf(),
                ledger.bounded(),
                n == pools.len(),
                pools == ledger.pools.rows(),
                i <= n,
                his == high_items(pools),
                items@ == los + his.take(i as int),
            decreases n - i,
        {
            let (key, pool) = ledger.pools.row(i);
            proof {
                ledger.pools.lemma_row(i as int);
            }
            items.push(-(pool.reserve_hi.msats as i64));
            i = i + 1;
            assert(items@ =~= los + his.take(i as int));
        }
        assert(his.take(n as int) =~= his);
        let m: usize = ledger.balances.len();
        let ghost balances = ledger.balances.rows();
        let ghost owed = balance_items(balances);
        assert(items@ =~= los + his + owed.take(0));
        i = 0;
        while i < m
            invariant
                ledger.wf(),
                ledger.bounded(),
                m == balances.len(),
                balances == ledger.balances.rows(),
                i <= m,
                owed == balance_items(balances),
                items@ == los + his + owed.take(i as int),
            decreases m - i,
        {
            let (key, entry) = ledger.balances.row(i);
            proof {
                ledger.balances.lemma_row(i as int);
            }
            items.push(-(entry.amount.msats as i64));
            i = i + 1;
            assert(items@ =~= los + his + owed.take(i as int));
        }
        assert(owed.take(m as int) =~= owed);
        items
    }
}

/// The items of the low reserves, each negative.
pub open spec fn low_items(pools: Seq<(PoolKey, Pool)>) -> Seq<i64> {
    pools.map_values(|row: (PoolKey, Pool)| (-row.1.reserve_lo.msats) as i64)
}

/// The items of the high reserves, each negative.
pub open spec fn high_items(pools: Seq<(PoolKey, Pool)>) -> Seq<i64> {
    pools.map_values(|row: (PoolKey, Pool)| (-row.1.reserve_hi.msats) as i64)
}

/// The items of the balances, each negative.
pub open spec fn balance_items(balances: Seq<(BalanceKey, BalanceEntry)>) -> Seq<i64> {
    balances.map_values(|row: (BalanceKey, BalanceEntry)| (-row.1.amount.msats) as i64)
}

/// The items of the balance sheet: the low reserves, the high reserves, the
/// balances, each in key order and each negative.
pub open spec fn audit_items(
    pools: Seq<(PoolKey, Pool)>,
    balances: Seq<(BalanceKey, BalanceEntry)>,
) -> Seq<i64> {
    low_items(pools) + high_items(pools) + balance_items(balances)
}

} // verus!
