//! The ledger as a whole, and how each transaction item changes it.

use vstd::prelude::*;

use crate::config::AmmConfigConsensus;
use crate::crypto::PublicKey;
use crate::math::{MAX_RESERVE, MINIMUM_LIQUIDITY};
use crate::math_laws::{
    law_every_mint_pays_its_owner, law_first_mint_sets_minimum_aside,
    law_swap_never_drains_and_never_overflows, law_withdrawal_never_dilutes,
};
use crate::pool_id::PoolId;
use crate::server::db::{
    BalanceEntry, BalanceKey, DesiredFeeKey, FeeVoteKey, LpPosition, LpPositionKey, PeerId, Pool,
    PoolKey,
};
use crate::server::fees::{aggregate_fee, effective_fee};
use crate::server::settle::{
    deposit_settlement, pool_or_empty, settle_deposit, settle_swap, settle_withdrawal, swap_settlement,
    withdrawal_settlement,
};
use crate::table::{
    lemma_insert_keeps_keys_valid, lemma_remove_keeps_keys_valid, lemma_total_nonnegative, Table,
};
use crate::types::{
    AmmInput, AmmInputError, AmmInputErrorView, AmmOutput, AmmOutputError, AmmOutputErrorView,
};
use crate::units::{AmountUnit, Amounts};

verus! {

/// Everything the guardians keep.
#[derive(Debug, Clone, PartialEq, Eq)]
pub struct Ledger {
    pub pools: Table<PoolKey, Pool>,
    pub positions: Table<LpPositionKey, LpPosition>,
    pub balances: Table<BalanceKey, BalanceEntry>,
    pub fee_votes: Table<FeeVoteKey, u16>,
    pub desired_fees: Table<DesiredFeeKey, u16>,
}

/// What the ledger holds.
pub struct LedgerView {
    pub pools: Map<PoolKey, Pool>,
    pub positions: Map<LpPositionKey, LpPosition>,
    pub balances: Map<BalanceKey, BalanceEntry>,
    pub fee_votes: Map<FeeVoteKey, u16>,
    pub desired_fees: Map<DesiredFeeKey, u16>,
}

/// The value under `k`, if there is one.
pub open spec fn at<K, V>(m: Map<K, V>, k: K) -> Option<V> {
    if m.dom().contains(k) {
        Some(m[k])
    } else {
        None
    }
}

/// What a pool owes in `unit`: the reserve it holds of it.
pub open spec fn pool_part(unit: AmountUnit) -> spec_fn(PoolKey, Pool) -> int {
    |k: PoolKey, p: Pool|
        (if k.0.low() == unit {
            p.reserve_lo.msats as int
        } else {
            0
        }) + (if k.0.high() == unit {
            p.reserve_hi.msats as int
        } else {
            0
        })
}

/// What a balance owes in `unit`.
pub open spec fn balance_part(unit: AmountUnit) -> spec_fn(BalanceKey, BalanceEntry) -> int {
    |k: BalanceKey, b: BalanceEntry|
        if k.unit == unit {
            b.amount.msats as int
        } else {
            0
        }
}

/// What a pool owes in both its units, as one number.
pub open spec fn reserves_part() -> spec_fn(PoolKey, Pool) -> int {
    |k: PoolKey, p: Pool| p.reserve_lo.msats + p.reserve_hi.msats
}

/// What a balance owes, whatever its unit.
pub open spec fn amount_part() -> spec_fn(BalanceKey, BalanceEntry) -> int {
    |k: BalanceKey, b: BalanceEntry| b.amount.msats as int
}

/// The shares of a position, where it is one in `pool`.
pub open spec fn shares_part(pool: PoolId) -> spec_fn(LpPositionKey, LpPosition) -> int {
    |k: LpPositionKey, p: LpPosition|
        if k.pool == pool {
            p.shares as int
        } else {
            0
        }
}

impl Ledger {
    /// Every table is a table.
    pub open spec fn wf(self) -> bool {
        &&& self.pools.wf()
        &&& self.positions.wf()
        &&& self.balances.wf()
        &&& self.fee_votes.wf()
        &&& self.desired_fees.wf()
    }

    /// What the ledger holds.
    pub open spec fn view(self) -> LedgerView {
        LedgerView {
            pools: self.pools.view(),
            positions: self.positions.view(),
            balances: self.balances.view(),
            fee_votes: self.fee_votes.view(),
            desired_fees: self.desired_fees.view(),
        }
    }

    /// No reserve and no balance exceeds the cap.
    pub open spec fn bounded(self) -> bool {
        &&& forall|k: PoolKey| #[trigger]
            self.pools.lookup(k) matches Some(p) ==> p.reserve_lo.msats <= MAX_RESERVE
                && p.reserve_hi.msats <= MAX_RESERVE
        &&& forall|k: BalanceKey| #[trigger]
            self.balances.lookup(k) matches Some(b) ==> b.amount.msats <= MAX_RESERVE
    }

    /// Every stored key can be told to others and read back: pools are canonical
    /// and owners are points of the curve.
    pub open spec fn keys_valid(self) -> bool {
        &&& self.pools.keys_valid()
        &&& self.positions.keys_valid()
        &&& self.balances.keys_valid()
        &&& self.fee_votes.keys_valid()
        &&& self.desired_fees.keys_valid()
    }

    /// All that is owed in `unit`: reserves and balances. Positions are claims
    /// on reserves that are counted already.
    pub open spec fn liability(self, unit: AmountUnit) -> int {
        self.pools.total(pool_part(unit)) + self.balances.total(balance_part(unit))
    }

    /// All that is owed, every unit taken together: both reserves of every pool
    /// and every balance.
    pub open spec fn owed(self) -> int {
        self.pools.total(reserves_part()) + self.balances.total(amount_part())
    }

    /// The shares that owners hold in `pool`.
    pub open spec fn owned_shares(self, pool: PoolId) -> int {
        self.positions.total(shares_part(pool))
    }

    /// Every pool's shares are those that owners hold and the ones set aside for
    /// nobody, and nobody holds shares in a pool that does not exist.
    pub open spec fn shares_accounted(self) -> bool {
        forall|pool: PoolId|
            #![trigger self.owned_shares(pool)]
            match self.pools.lookup(PoolKey(pool)) {
                Some(p) => p.total_shares == self.owned_shares(pool) + MINIMUM_LIQUIDITY,
                None => self.owned_shares(pool) == 0,
            }
    }

    /// No position holds zero shares: one that is used up is gone.
    pub open spec fn no_empty_positions(self) -> bool {
        forall|k: LpPositionKey| #[trigger]
            self.positions.lookup(k) matches Some(p) ==> p.shares > 0
    }

    /// A ledger that holds nothing.
    pub fn new() -> (r: Ledger)
        ensures
            r.wf(),
            r.bounded(),
            r.shares_accounted(),
            r.keys_valid(),
            r.no_empty_positions(),
            r.view().pools == Map::<PoolKey, Pool>::empty(),
            r.view().positions == Map::<LpPositionKey, LpPosition>::empty(),
            r.view().balances == Map::<BalanceKey, BalanceEntry>::empty(),
            r.view().fee_votes == Map::<FeeVoteKey, u16>::empty(),
            r.view().desired_fees == Map::<DesiredFeeKey, u16>::empty(),
            forall|u: AmountUnit| r.liability(u) == 0,
            r.owed() == 0,
    {
        Ledger {
            pools: Table::new(),
            positions: Table::new(),
            balances: Table::new(),
            fee_votes: Table::new(),
            desired_fees: Table::new(),
        }
    }
}

/// What a processed item is worth, and what it costs besides.
#[derive(Debug, Clone, PartialEq, Eq)]
pub struct TransactionItemAmounts {
    pub amounts: Amounts,
    pub fees: Amounts,
}

impl TransactionItemAmounts {
    /// Both are well-formed, and there are no fees.
    pub open spec fn wf(self) -> bool {
        &&& self.amounts.wf()
        &&& self.fees.wf()
        &&& forall|u: AmountUnit| #[trigger] self.fees.of(u) == 0
    }
}

/// What a processed input provides, and the key that has to sign for it.
#[derive(Debug, Clone, PartialEq, Eq)]
pub struct InputMeta {
    pub amount: TransactionItemAmounts,
    pub pub_key: PublicKey,
}

/// The market, as one guardian runs it.
#[derive(Debug, Clone)]
pub struct Amm {
    pub cfg: AmmConfigConsensus,
    pub num_peers: usize,
    pub our_peer_id: PeerId,
}

/// What an input does to the ledger.
pub open spec fn input_effect(s: LedgerView, input: AmmInput) -> Result<
    LedgerView,
    AmmInputErrorView,
> {
    match input {
        AmmInput::ClaimBalanceV0 { pubkey, unit } => {
            let key = BalanceKey { owner: pubkey, unit };
            match at(s.balances, key) {
                None => Err(AmmInputErrorView::NoSuchBalance),
                Some(_) => Ok(LedgerView { balances: s.balances.remove(key), ..s }),
            }
        },
        AmmInput::WithdrawV0 { pool, owner_pk, shares, min_lo, min_hi, max_lo, max_hi } => {
            let key = LpPositionKey { pool, owner: owner_pk };
            match withdrawal_settlement(
                at(s.pools, PoolKey(pool)),
                at(s.positions, key),
                shares,
                min_lo,
                min_hi,
                max_lo,
                max_hi,
            ) {
                Err(e) => Err(e),
                Ok(w) => Ok(
                    LedgerView {
                        pools: s.pools.insert(PoolKey(pool), w.pool),
                        positions: match w.position {
                            Some(p) => s.positions.insert(key, p),
                            None => s.positions.remove(key),
                        },
                        ..s
                    },
                ),
            }
        },
        AmmInput::Default { variant, bytes } => Err(AmmInputErrorView::UnknownVariant),
    }
}

/// What an accepted input provides of `unit`.
pub open spec fn input_value(s: LedgerView, input: AmmInput, u: AmountUnit) -> int {
    match input {
        AmmInput::ClaimBalanceV0 { pubkey, unit } => if u == unit {
            s.balances[BalanceKey { owner: pubkey, unit }].amount.msats as int
        } else {
            0
        },
        AmmInput::WithdrawV0 { pool, owner_pk, shares, min_lo, min_hi, max_lo, max_hi } => {
            match withdrawal_settlement(
                at(s.pools, PoolKey(pool)),
                at(s.positions, LpPositionKey { pool, owner: owner_pk }),
                shares,
                min_lo,
                min_hi,
                max_lo,
                max_hi,
            ) {
                Ok(w) => if u == pool.low() {
                    w.lo.msats as int
                } else if u == pool.high() {
                    w.hi.msats as int
                } else {
                    0
                },
                Err(_) => 0,
            }
        },
        AmmInput::Default { .. } => 0,
    }
}

/// The key that signs for an input.
pub open spec fn input_key(input: AmmInput) -> Option<PublicKey> {
    match input {
        AmmInput::ClaimBalanceV0 { pubkey, .. } => Some(pubkey),
        AmmInput::WithdrawV0 { owner_pk, .. } => Some(owner_pk),
        AmmInput::Default { .. } => None,
    }
}

/// What an output does to the ledger, at the fee in force for its pool. Whether
/// it proves possession of the key it names comes before anything else.
pub open spec fn output_effect(
    cfg: AmmConfigConsensus,
    fee_of: spec_fn(PoolId) -> u16,
    s: LedgerView,
    output: AmmOutput,
) -> Result<LedgerView, AmmOutputErrorView> {
    match output {
        AmmOutput::Default { variant, bytes } => Err(AmmOutputErrorView::UnknownVariant),
        AmmOutput::SwapV0 {
            unit_in,
            unit_out,
            amount_in,
            min_out,
            recipient_pk,
            tweak,
            pop,
        } => if !output.pop_valid() {
            Err(AmmOutputErrorView::InvalidProofOfPossession)
        } else {
            match PoolId::of_units(unit_in, unit_out) {
                None => Err(AmmOutputErrorView::IdenticalUnits),
                Some(pool_id) => {
                    let key = BalanceKey { owner: recipient_pk, unit: unit_out };
                    match swap_settlement(
                        cfg,
                        fee_of(pool_id),
                        at(s.pools, PoolKey(pool_id)),
                        at(s.balances, key),
                        unit_in,
                        unit_out,
                        amount_in,
                        min_out,
                        tweak,
                    ) {
                        Err(e) => Err(e),
                        Ok((pool, entry)) => Ok(
                            LedgerView {
                                pools: s.pools.insert(PoolKey(pool_id), pool),
                                balances: s.balances.insert(key, entry),
                                ..s
                            },
                        ),
                    }
                },
            }
        },
        AmmOutput::DepositV0 { pool, amount_lo, amount_hi, min_shares, owner_pk, tweak, pop } =>
        if !output.pop_valid() {
            Err(AmmOutputErrorView::InvalidProofOfPossession)
        } else {
            let key = LpPositionKey { pool, owner: owner_pk };
            match deposit_settlement(
                cfg,
                pool,
                at(s.pools, PoolKey(pool)),
                at(s.positions, key),
                amount_lo,
                amount_hi,
                min_shares,
                tweak,
            ) {
                Err(e) => Err(e),
                Ok((settled, position)) => Ok(
                    LedgerView {
                        pools: s.pools.insert(PoolKey(pool), settled),
                        positions: s.positions.insert(key, position),
                        ..s
                    },
                ),
            }
        },
    }
}

/// What an accepted output consumes of `unit`.
pub open spec fn output_value(output: AmmOutput, u: AmountUnit) -> int {
    match output {
        AmmOutput::SwapV0 { unit_in, amount_in, .. } => if u == unit_in {
            amount_in.msats as int
        } else {
            0
        },
        AmmOutput::DepositV0 { pool, amount_lo, amount_hi, .. } => if u == pool.low() {
            amount_lo.msats as int
        } else if u == pool.high() {
            amount_hi.msats as int
        } else {
            0
        },
        AmmOutput::Default { .. } => 0,
    }
}

impl Amm {
    /// The configuration is a valid one to run on: its tables are tables, its
    /// band is not inverted, and there is at least one guardian.
    pub open spec fn wf(self) -> bool {
        &&& self.cfg.wf()
        &&& self.cfg.min_fee_per_mille <= self.cfg.max_fee_per_mille
        &&& self.num_peers >= 1
    }

    /// The fee in force for each pool.
    pub open spec fn fees_in_force(self, ledger: Ledger) -> spec_fn(PoolId) -> u16 {
        |pool: PoolId|
            effective_fee(self.cfg, self.num_peers as int, ledger.fee_votes.rows(), pool)
    }

    /// A guardian's market.
    pub fn new(cfg: AmmConfigConsensus, num_peers: usize, our_peer_id: PeerId) -> (r: Amm)
        ensures
            r == (Amm { cfg, num_peers, our_peer_id }),
    {
        Amm { cfg, num_peers, our_peer_id }
    }

    /// The fee in force for a pool.
    pub fn consensus_fee_for(&self, ledger: &Ledger, pool: PoolId) -> (r: u16)
        requires
            self.wf(),
        ensures
            r == (self.fees_in_force(*ledger))(pool),
            r == effective_fee(self.cfg, self.num_peers as int, ledger.fee_votes.rows(), pool),
            self.cfg.min_fee_per_mille <= r <= self.cfg.max_fee_per_mille,
    {
        aggregate_fee(&self.cfg, self.num_peers, &ledger.fee_votes, pool)
    }

    /// Processes an input: destroys the record it names and says what that
    /// provides. A refused input leaves the ledger as it was.
    ///
    /// What is owed falls by exactly what the input provides, in every unit and
    /// in all of them together.
    pub fn process_input(&self, ledger: &mut Ledger, input: &AmmInput) -> (r: Result<
        InputMeta,
        AmmInputError,
    >)
        requires
            old(ledger).wf(),
        ensures
            final(ledger).wf(),
            match input_effect(old(ledger).view(), *input) {
                Ok(s) => {
                    &&& r matches Ok(meta) && {
                        &&& meta.amount.wf()
                        &&& Some(meta.pub_key) == input_key(*input)
                        &&& forall|u: AmountUnit| #[trigger]
                            meta.amount.amounts.of(u) == input_value(old(ledger).view(), *input, u)
                    }
                    &&& final(ledger).view() == s
                    &&& forall|u: AmountUnit| #[trigger]
                        final(ledger).liability(u) == old(ledger).liability(u) - input_value(
                            old(ledger).view(),
                            *input,
                            u,
                        )
                    &&& final(ledger).owed() == old(ledger).owed() - (
                    r->Ok_0).amount.amounts.sum()
                },
                Err(e) => (r matches Err(error) && error@ == e) && *final(ledger) == *old(ledger),
            },
            final(ledger).fee_votes == old(ledger).fee_votes,
            old(ledger).bounded() ==> final(ledger).bounded(),
            old(ledger).shares_accounted() ==> final(ledger).shares_accounted(),
            old(ledger).keys_valid() ==> final(ledger).keys_valid(),
            old(ledger).no_empty_positions() ==> final(ledger).no_empty_positions(),
    {
        match input {
            AmmInput::ClaimBalanceV0 { pubkey, unit } => {
                let key = BalanceKey { owner: *pubkey, unit: *unit };
                let entry = match ledger.balances.get(&key) {
                    Some(entry) => entry,
                    None => return Err(AmmInputError::NoSuchBalance),
                };
                ledger.balances.remove(&key);
                proof {
                    lemma_remove_keeps_keys_valid(old(ledger).balances, ledger.balances, key);
                    lemma_balances_changed(*old(ledger), *ledger, key, None);
                    lemma_shares_untouched(*old(ledger), *ledger);
                }
                Ok(
                    InputMeta {
                        amount: TransactionItemAmounts {
                            amounts: Amounts::new_custom(*unit, entry.amount),
                            fees: Amounts::zero(),
                        },
                        pub_key: *pubkey,
                    },
                )
            },
            AmmInput::WithdrawV0 { pool, owner_pk, shares, min_lo, min_hi, max_lo, max_hi } => {
                let pool_key = PoolKey(*pool);
                let key = LpPositionKey { pool: *pool, owner: *owner_pk };
                let held = ledger.positions.get(&key);
                let w = match settle_withdrawal(
                    ledger.pools.get(&pool_key),
                    held,
                    *shares,
                    *min_lo,
                    *min_hi,
                    *max_lo,
                    *max_hi,
                ) {
                    Ok(w) => w,
                    Err(e) => return Err(e),
                };
                let amounts = match Amounts::zero().checked_add_unit(w.lo, pool.lo()) {
                    Some(amounts) => amounts,
                    None => return Err(AmmInputError::Curve("amount overflow".to_owned())),
                };
                let amounts = match amounts.checked_add_unit(w.hi, pool.hi()) {
                    Some(amounts) => amounts,
                    None => return Err(AmmInputError::Curve("amount overflow".to_owned())),
                };
                ledger.pools.insert(pool_key, w.pool);
                match w.position {
                    Some(position) => ledger.positions.insert(key, position),
                    None => {
                        ledger.positions.remove(&key);
                    },
                }
                proof {
                    let was = old(ledger).pools.lookup(pool_key)->0;
                    law_withdrawal_never_dilutes(
                        was.reserve_lo.msats,
                        was.reserve_hi.msats,
                        was.total_shares,
                        *shares,
                    );
                    lemma_pool_changed(*old(ledger), *ledger, pool_key, w.pool);
                    lemma_insert_keeps_keys_valid(
                        old(ledger).pools,
                        ledger.pools,
                        pool_key,
                        w.pool,
                    );
                    lemma_no_empty_positions(*old(ledger), *ledger, key, w.position);
                    match w.position {
                        Some(position) => lemma_insert_keeps_keys_valid(
                            old(ledger).positions,
                            ledger.positions,
                            key,
                            position,
                        ),
                        None => lemma_remove_keeps_keys_valid(
                            old(ledger).positions,
                            ledger.positions,
                            key,
                        ),
                    }
                    lemma_shares_changed(
                        *old(ledger),
                        *ledger,
                        key,
                        -(*shares as int),
                        was.total_shares as int,
                    );
                }
                Ok(
                    InputMeta {
                        amount: TransactionItemAmounts { amounts, fees: Amounts::zero() },
                        pub_key: *owner_pk,
                    },
                )
            },
            AmmInput::Default { .. } => Err(AmmInputError::UnknownVariant),
        }
    }

    /// Processes an output: creates the record it asks for and says what that
    /// consumes. A refused output leaves the ledger as it was.
    ///
    /// What is owed grows by exactly what the output consumes, in every unit and
    /// in all of them together.
    pub fn process_output(&self, ledger: &mut Ledger, output: &AmmOutput) -> (r: Result<
        TransactionItemAmounts,
        AmmOutputError,
    >)
        requires
            self.wf(),
            old(ledger).wf(),
        ensures
            final(ledger).wf(),
            match output_effect(
                self.cfg,
                self.fees_in_force(*old(ledger)),
                old(ledger).view(),
                *output,
            ) {
                Ok(s) => {
                    &&& r matches Ok(amount) && {
                        &&& amount.wf()
                        &&& forall|u: AmountUnit| #[trigger]
                            amount.amounts.of(u) == output_value(*output, u)
                    }
                    &&& final(ledger).view() == s
                    &&& forall|u: AmountUnit| #[trigger]
                        final(ledger).liability(u) == old(ledger).liability(u) + output_value(
                            *output,
                            u,
                        )
                    &&& final(ledger).owed() == old(ledger).owed() + (r->Ok_0).amounts.sum()
                },
                Err(e) => (r matches Err(error) && error@ == e) && *final(ledger) == *old(ledger),
            },
            final(ledger).fee_votes == old(ledger).fee_votes,
            old(ledger).bounded() ==> final(ledger).bounded(),
            old(ledger).shares_accounted() ==> final(ledger).shares_accounted(),
            old(ledger).keys_valid() ==> final(ledger).keys_valid(),
            old(ledger).no_empty_positions() ==> final(ledger).no_empty_positions(),
    {
        if let AmmOutput::Default { .. } = output {
            return Err(AmmOutputError::UnknownVariant);
        }
        if !output.verify_pop() {
            return Err(AmmOutputError::InvalidProofOfPossession);
        }
        match output {
            AmmOutput::SwapV0 {
                unit_in,
                unit_out,
                amount_in,
                min_out,
                recipient_pk,
                tweak,
                ..
            } => {
                let pool_id = match PoolId::new(*unit_in, *unit_out) {
                    Some(pool_id) => pool_id,
                    None => return Err(AmmOutputError::IdenticalUnits),
                };
                let pool_key = PoolKey(pool_id);
                let key = BalanceKey { owner: *recipient_pk, unit: *unit_out };
                let fee: u16 = self.consensus_fee_for(ledger, pool_id);
                let (pool, entry) = match settle_swap(
                    &self.cfg,
                    fee,
                    ledger.pools.get(&pool_key),
                    ledger.balances.get(&key),
                    *unit_in,
                    *unit_out,
                    *amount_in,
                    *min_out,
                    *tweak,
                ) {
                    Ok(rows) => rows,
                    Err(e) => return Err(e),
                };
                ledger.pools.insert(pool_key, pool);
                let ghost middle = *ledger;
                ledger.balances.insert(key, entry);
                proof {
                    let was = old(ledger).pools.lookup(pool_key)->0;
                    PoolId::lemma_over(*unit_in, *unit_out);
                    PoolId::lemma_over(*unit_out, *unit_in);
                    law_swap_never_drains_and_never_overflows(
                        was.reserve_lo.msats,
                        was.reserve_hi.msats,
                        amount_in.msats,
                        fee,
                    );
                    law_swap_never_drains_and_never_overflows(
                        was.reserve_hi.msats,
                        was.reserve_lo.msats,
                        amount_in.msats,
                        fee,
                    );
                    lemma_insert_keeps_keys_valid(old(ledger).pools, ledger.pools, pool_key, pool);
                    lemma_insert_keeps_keys_valid(
                        old(ledger).balances,
                        ledger.balances,
                        key,
                        entry,
                    );
                    lemma_pool_changed(*old(ledger), middle, pool_key, pool);
                    lemma_balances_changed(middle, *ledger, key, Some(entry));
                    lemma_shares_untouched(*old(ledger), *ledger);
                }
                Ok(
                    TransactionItemAmounts {
                        amounts: Amounts::new_custom(*unit_in, *amount_in),
                        fees: Amounts::zero(),
                    },
                )
            },
            AmmOutput::DepositV0 {
                pool,
                amount_lo,
                amount_hi,
                min_shares,
                owner_pk,
                tweak,
                ..
            } => {
                let pool_key = PoolKey(*pool);
                let key = LpPositionKey { pool: *pool, owner: *owner_pk };
                let found = ledger.pools.get(&pool_key);
                let (settled, position) = match settle_deposit(
                    &self.cfg,
                    *pool,
                    found,
                    ledger.positions.get(&key),
                    *amount_lo,
                    *amount_hi,
                    *min_shares,
                    *tweak,
                ) {
                    Ok(rows) => rows,
                    Err(e) => return Err(e),
                };
                let amounts = match Amounts::zero().checked_add_unit(*amount_lo, pool.lo()) {
                    Some(amounts) => amounts,
                    None => return Err(AmmOutputError::ReserveCapExceeded),
                };
                let amounts = match amounts.checked_add_unit(*amount_hi, pool.hi()) {
                    Some(amounts) => amounts,
                    None => return Err(AmmOutputError::ReserveCapExceeded),
                };
                ledger.pools.insert(pool_key, settled);
                ledger.positions.insert(key, position);
                proof {
                    law_first_mint_sets_minimum_aside(amount_lo.msats, amount_hi.msats);
                    let before: Pool = pool_or_empty(found);
                    law_every_mint_pays_its_owner(
                        before.reserve_lo.msats,
                        before.reserve_hi.msats,
                        before.total_shares,
                        amount_lo.msats,
                        amount_hi.msats,
                    );
                    lemma_no_empty_positions(*old(ledger), *ledger, key, Some(position));
                    lemma_insert_keeps_keys_valid(
                        old(ledger).pools,
                        ledger.pools,
                        pool_key,
                        settled,
                    );
                    lemma_insert_keeps_keys_valid(
                        old(ledger).positions,
                        ledger.positions,
                        key,
                        position,
                    );
                    lemma_pool_changed(*old(ledger), *ledger, pool_key, settled);
                    let held: int = match old(ledger).positions.lookup(key) {
                        Some(p) => p.shares as int,
                        None => 0,
                    };
                    let total: int = match found {
                        Some(p) => p.total_shares as int,
                        None => MINIMUM_LIQUIDITY as int,
                    };
                    lemma_owned_nonnegative(*old(ledger), *pool);
                    lemma_shares_changed(
                        *old(ledger),
                        *ledger,
                        key,
                        position.shares - held,
                        total,
                    );
                }
                Ok(TransactionItemAmounts { amounts, fees: Amounts::zero() })
            },
            AmmOutput::Default { .. } => Err(AmmOutputError::UnknownVariant),
        }
    }
}

/// One changed pool changes what is owed by the change of its reserves.
proof fn lemma_pool_changed(before: Ledger, after: Ledger, key: PoolKey, pool: Pool)
    requires
        before.wf(),
        after.pools.wf(),
        after.pools.view() == before.pools.view().insert(key, pool),
        forall|f: spec_fn(PoolKey, Pool) -> int| #[trigger]
            after.pools.total(f) == before.pools.total(f) - before.pools.part(key, f) + f(key, pool),
        after.balances == before.balances,
    ensures
        forall|u: AmountUnit| #[trigger]
            after.liability(u) == before.liability(u) - before.pools.part(key, pool_part(u))
                + pool_part(u)(key, pool),
        after.owed() == before.owed() - before.pools.part(key, reserves_part()) + reserves_part()(
            key,
            pool,
        ),
        forall|k: PoolKey| #[trigger]
            after.pools.lookup(k) == (if k == key {
                Some(pool)
            } else {
                before.pools.lookup(k)
            }),
{
    assert forall|u: AmountUnit| #[trigger]
        after.liability(u) == before.liability(u) - before.pools.part(key, pool_part(u))
            + pool_part(u)(key, pool) by {
        let total = after.pools.total(pool_part(u));
    }
    let total = after.pools.total(reserves_part());
}

/// One changed balance changes what is owed by the change of its amount.
proof fn lemma_balances_changed(
    before: Ledger,
    after: Ledger,
    key: BalanceKey,
    entry: Option<BalanceEntry>,
)
    requires
        before.balances.wf(),
        after.balances.wf(),
        entry matches Some(e) ==> after.balances.view() == before.balances.view().insert(key, e)
            && (forall|f: spec_fn(BalanceKey, BalanceEntry) -> int| #[trigger]
            after.balances.total(f) == before.balances.total(f) - before.balances.part(key, f) + f(
                key,
                e,
            )),
        entry is None ==> after.balances.view() == before.balances.view().remove(key) && (forall|
            f: spec_fn(BalanceKey, BalanceEntry) -> int,
        | #[trigger]
            after.balances.total(f) == before.balances.total(f) - before.balances.part(key, f)),
        after.pools == before.pools,
    ensures
        forall|u: AmountUnit| #[trigger]
            after.liability(u) == before.liability(u) - before.balances.part(key, balance_part(u))
                + (match entry {
                Some(e) => balance_part(u)(key, e),
                None => 0,
            }),
        after.owed() == before.owed() - before.balances.part(key, amount_part()) + (match entry {
            Some(e) => amount_part()(key, e),
            None => 0,
        }),
        forall|k: BalanceKey| #[trigger]
            after.balances.lookup(k) == (if k == key {
                entry
            } else {
                before.balances.lookup(k)
            }),
{
    assert forall|u: AmountUnit| #[trigger]
        after.liability(u) == before.liability(u) - before.balances.part(key, balance_part(u)) + (
        match entry {
            Some(e) => balance_part(u)(key, e),
            None => 0,
        }) by {
        let total = after.balances.total(balance_part(u));
    }
    let total = after.balances.total(amount_part());
}

/// A position that holds shares, or one that goes away, leaves no empty one.
proof fn lemma_no_empty_positions(
    before: Ledger,
    after: Ledger,
    key: LpPositionKey,
    position: Option<LpPosition>,
)
    requires
        match position {
            Some(p) => p.shares > 0 && after.positions.view() == before.positions.view().insert(
                key,
                p,
            ),
            None => after.positions.view() == before.positions.view().remove(key),
        },
    ensures
        before.no_empty_positions() ==> after.no_empty_positions(),
{
    if before.no_empty_positions() {
        assert forall|k: LpPositionKey| #[trigger]
            after.positions.lookup(k) is Some implies after.positions.lookup(k)->0.shares > 0 by {
            let was = before.positions.lookup(k);
        }
    }
}

/// Owners hold no negative number of shares.
pub proof fn lemma_owned_nonnegative(ledger: Ledger, pool: PoolId)
    ensures
        ledger.owned_shares(pool) >= 0,
{
    lemma_total_nonnegative(ledger.positions.rows(), shares_part(pool));
}

/// Where no position and no pool's shares change, they stay accounted for.
proof fn lemma_shares_untouched(before: Ledger, after: Ledger)
    requires
        after.positions == before.positions,
        forall|k: PoolKey| #[trigger]
            after.pools.lookup(k) is Some == before.pools.lookup(k) is Some,
        forall|k: PoolKey| #[trigger]
            after.pools.lookup(k) matches Some(p) ==> p.total_shares == (before.pools.lookup(
                k,
            )->0).total_shares,
    ensures
        before.shares_accounted() ==> after.shares_accounted(),
{
    if before.shares_accounted() {
        assert forall|pool: PoolId|
            #![trigger after.owned_shares(pool)]
            match after.pools.lookup(PoolKey(pool)) {
                Some(p) => p.total_shares == after.owned_shares(pool) + MINIMUM_LIQUIDITY,
                None => after.owned_shares(pool) == 0,
            } by {
            assert(after.owned_shares(pool) == before.owned_shares(pool));
        }
    }
}

/// A position and its pool's shares that change together stay accounted for.
proof fn lemma_shares_changed(
    before: Ledger,
    after: Ledger,
    key: LpPositionKey,
    change: int,
    total: int,
)
    requires
        before.wf(),
        after.wf(),
        forall|f: spec_fn(LpPositionKey, LpPosition) -> int| #[trigger]
            after.positions.total(f) == before.positions.total(f) - before.positions.part(key, f)
                + after.positions.part(key, f),
        after.positions.part(key, shares_part(key.pool)) == before.positions.part(
            key,
            shares_part(key.pool),
        ) + change,
        forall|k: PoolKey|
            k.0 != key.pool ==> #[trigger] after.pools.lookup(k) == before.pools.lookup(k),
        after.pools.lookup(PoolKey(key.pool)) matches Some(p) && (before.shares_accounted()
            ==> p.total_shares == total + change),
        match before.pools.lookup(PoolKey(key.pool)) {
            Some(p) => total == p.total_shares,
            None => total == MINIMUM_LIQUIDITY,
        },
    ensures
        before.shares_accounted() ==> after.shares_accounted(),
{
    if before.shares_accounted() {
        assert forall|pool: PoolId|
            #![trigger after.owned_shares(pool)]
            match after.pools.lookup(PoolKey(pool)) {
                Some(p) => p.total_shares == after.owned_shares(pool) + MINIMUM_LIQUIDITY,
                None => after.owned_shares(pool) == 0,
            } by {
            let f = shares_part(pool);
            assert(after.positions.total(f) == before.positions.total(f) - before.positions.part(
                key,
                f,
            ) + after.positions.part(key, f));
            let owned = before.owned_shares(pool);
            if pool != key.pool {
                assert(after.pools.lookup(PoolKey(pool)) == before.pools.lookup(PoolKey(pool)));
            }
        }
    }
}

} // verus!
