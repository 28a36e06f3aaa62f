//! How guardians vote on fees.

use vstd::prelude::*;
use vstd::string::*;

use crate::pool_id::PoolId;
use crate::server::db::{DesiredFeeKey, FeeVoteKey, PeerId, Pool, PoolKey};
use crate::server::ledger::{at, Amm, Ledger, LedgerView};
use crate::table::lemma_insert_keeps_keys_valid;
use crate::text::{append_decimal, decimal};
use crate::types::AmmConsensusItem;

verus! {

/// Why a consensus item is refused. An item that changes nothing is refused, so
/// that nobody can fill a session for free.
#[derive(Debug, Clone, Copy, PartialEq, Eq, Structural)]
pub enum ConsensusItemError {
    /// The fee lies outside the configured band.
    OutOfBand { fee_per_mille: u16 },
    /// There is no such pool.
    NoSuchPool,
    /// The guardian's recorded vote is the same.
    Redundant,
    /// The item is of a kind that this version does not know.
    UnknownVariant { variant: u64 },
}

impl ConsensusItemError {
    /// The text shown for each error.
    pub open spec fn text(self) -> Seq<char> {
        match self {
            ConsensusItemError::OutOfBand { fee_per_mille } => "fee vote of "@ + decimal(
                fee_per_mille as nat,
            ) + " is outside the configured band"@,
            ConsensusItemError::NoSuchPool => "fee vote names a pool that does not exist"@,
            ConsensusItemError::Redundant => "fee vote is redundant"@,
            ConsensusItemError::UnknownVariant { variant } =>
                "consensus item of unknown variant "@ + decimal(variant as nat),
        }
    }

    /// The error as a human-readable line.
    pub fn message(&self) -> (r: String)
        ensures
            r@ == self.text(),
    {
        match self {
            ConsensusItemError::OutOfBand { fee_per_mille } => {
                let mut s: String = "fee vote of ".to_owned();
                append_decimal(&mut s, *fee_per_mille as u128);
                s.append(" is outside the configured band");
                s
            },
            ConsensusItemError::NoSuchPool => {
                "fee vote names a pool that does not exist".to_owned()
            },
            ConsensusItemError::Redundant => "fee vote is redundant".to_owned(),
            ConsensusItemError::UnknownVariant { variant } => {
                let mut s: String = "consensus item of unknown variant ".to_owned();
                append_decimal(&mut s, *variant as u128);
                s
            },
        }
    }
}

/// What is wrong with a guardian's item.
pub open spec fn item_error(
    amm: Amm,
    s: LedgerView,
    item: AmmConsensusItem,
    peer: PeerId,
) -> Option<ConsensusItemError> {
    match item {
        AmmConsensusItem::FeeVoteV0 { pool, fee_per_mille } => {
            if !(amm.cfg.min_fee_per_mille <= fee_per_mille <= amm.cfg.max_fee_per_mille) {
                Some(ConsensusItemError::OutOfBand { fee_per_mille })
            } else if at(s.pools, PoolKey(pool)) is None {
                Some(ConsensusItemError::NoSuchPool)
            } else if at(s.fee_votes, FeeVoteKey { pool, peer }) == Some(fee_per_mille) {
                Some(ConsensusItemError::Redundant)
            } else {
                None
            }
        },
        AmmConsensusItem::Default { variant, bytes } => Some(
            ConsensusItemError::UnknownVariant { variant },
        ),
    }
}

/// The votes that a guardian still owes the others: its intents, in key order,
/// for pools that exist and where its recorded vote is another.
pub open spec fn owed_votes(
    rows: Seq<(DesiredFeeKey, u16)>,
    pools: Map<PoolKey, Pool>,
    votes: Map<FeeVoteKey, u16>,
    me: PeerId,
) -> Seq<(PoolId, u16)>
    decreases rows.len(),
{
    if rows.len() == 0 {
        Seq::empty()
    } else {
        let front = owed_votes(rows.drop_last(), pools, votes, me);
        let (key, fee) = rows.last();
        if at(pools, PoolKey(key.0)) is Some && at(votes, FeeVoteKey { pool: key.0, peer: me })
            != Some(fee) {
            front.push((key.0, fee))
        } else {
            front
        }
    }
}

/// Whether items are exactly these votes.
pub open spec fn are_votes(items: Seq<AmmConsensusItem>, votes: Seq<(PoolId, u16)>) -> bool {
    &&& items.len() == votes.len()
    &&& forall|i: int|
        0 <= i < items.len() ==> #[trigger] items[i] == (AmmConsensusItem::FeeVoteV0 {
            pool: votes[i].0,
            fee_per_mille: votes[i].1,
        })
}

impl Amm {
    /// What this guardian proposes: the votes it still owes the others.
    pub fn consensus_proposal(&self, ledger: &Ledger) -> (r: Vec<AmmConsensusItem>)
        requires
            ledger.wf(),
        ensures
            are_votes(
                r@,
                owed_votes(
                    ledger.desired_fees.rows(),
                    ledger.view().pools,
                    ledger.view().fee_votes,
                    self.our_peer_id,
                ),
            ),
    {
        let mut items: Vec<AmmConsensusItem> = Vec::new();
        let ghost rows = ledger.desired_fees.rows();
        let n: usize = ledger.desired_fees.len();
        let mut i: usize = 0;
        while i < n
            invariant
                ledger.wf(),
                rows == ledger.desired_fees.rows(),
                n == rows.len(),
                i <= n,
                are_votes(
                    items@,
                    owed_votes(
                        rows.take(i as int),
                        ledger.view().pools,
                        ledger.view().fee_votes,
                        self.our_peer_id,
                    ),
                ),
            decreases n - i,
        {
            let (key, fee) = ledger.desired_fees.row(i);
            proof {
                assert(rows.take(i as int + 1).drop_last() =~= rows.take(i as int));
                assert(rows.take(i as int + 1).last() == rows[i as int]);
            }
            if ledger.pools.get(&PoolKey(key.0)).is_some() {
                let recorded: Option<u16> = ledger.fee_votes.get(
                    &FeeVoteKey { pool: key.0, peer: self.our_peer_id },
                );
                let owed = match recorded {
                    Some(vote) => vote != fee,
                    None => true,
                };
                if owed {
                    items.push(AmmConsensusItem::FeeVoteV0 { pool: key.0, fee_per_mille: fee });
                }
            }
            i = i + 1;
        }
        assert(rows.take(n as int) =~= rows);
        items
    }

    /// Records a guardian's vote. A vote outside the band, for a pool that does
    /// not exist, or equal to the one recorded is refused and changes nothing.
    pub fn process_consensus_item(
        &self,
        ledger: &mut Ledger,
        item: &AmmConsensusItem,
        peer: PeerId,
    ) -> (r: Result<(), ConsensusItemError>)
        requires
            old(ledger).wf(),
        ensures
            final(ledger).wf(),
            match item_error(*self, old(ledger).view(), *item, peer) {
                Some(e) => r == Err::<(), ConsensusItemError>(e) && *final(ledger) == *old(ledger),
                None => {
                    &&& r is Ok
                    &&& item matches AmmConsensusItem::FeeVoteV0 { pool, fee_per_mille }
                        && final(ledger).fee_votes.view() == old(ledger).fee_votes.view().insert(
                        FeeVoteKey { pool: *pool, peer },
                        *fee_per_mille,
                    )
                    &&& final(ledger).pools == old(ledger).pools
                    &&& final(ledger).positions == old(ledger).positions
                    &&& final(ledger).balances == old(ledger).balances
                    &&& final(ledger).desired_fees == old(ledger).desired_fees
                },
            },
            old(ledger).keys_valid() ==> final(ledger).keys_valid(),
    {
        match item {
            AmmConsensusItem::FeeVoteV0 { pool, fee_per_mille } => {
                if !self.cfg.fee_in_band(*fee_per_mille) {
                    return Err(ConsensusItemError::OutOfBand { fee_per_mille: *fee_per_mille });
                }
                if ledger.pools.get(&PoolKey(*pool)).is_none() {
                    return Err(ConsensusItemError::NoSuchPool);
                }
                let key = FeeVoteKey { pool: *pool, peer };
                let recorded: Option<u16> = ledger.fee_votes.get(&key);
                if let Some(vote) = recorded {
                    if vote == *fee_per_mille {
                        return Err(ConsensusItemError::Redundant);
                    }
                }
                ledger.fee_votes.insert(key, *fee_per_mille);
                proof {
                    let was = old(ledger).pools.lookup(PoolKey(*pool));
                    lemma_insert_keeps_keys_valid(
                        old(ledger).fee_votes,
                        ledger.fee_votes,
                        key,
                        *fee_per_mille,
                    );
                }
                Ok(())
            },
            AmmConsensusItem::Default { variant, .. } => {
                Err(ConsensusItemError::UnknownVariant { variant: *variant })
            },
        }
    }
}

/// Whatever this guardian proposes within the band, the others accept: it is
/// never a vote for a pool that does not exist, and never redundant.
pub proof fn law_proposals_are_accepted(amm: Amm, ledger: Ledger, i: int)
    requires
        ({
            let owed = owed_votes(
                ledger.desired_fees.rows(),
                ledger.view().pools,
                ledger.view().fee_votes,
                amm.our_peer_id,
            );
            &&& 0 <= i < owed.len()
            &&& amm.cfg.min_fee_per_mille <= owed[i].1 <= amm.cfg.max_fee_per_mille
        }),
    ensures
        ({
            let owed = owed_votes(
                ledger.desired_fees.rows(),
                ledger.view().pools,
                ledger.view().fee_votes,
                amm.our_peer_id,
            );
            item_error(
                amm,
                ledger.view(),
                AmmConsensusItem::FeeVoteV0 { pool: owed[i].0, fee_per_mille: owed[i].1 },
                amm.our_peer_id,
            ) is None
        }),
{
    lemma_owed_vote(
        ledger.desired_fees.rows(),
        ledger.view().pools,
        ledger.view().fee_votes,
        amm.our_peer_id,
        i,
    );
}

proof fn lemma_owed_vote(
    rows: Seq<(DesiredFeeKey, u16)>,
    pools: Map<PoolKey, Pool>,
    votes: Map<FeeVoteKey, u16>,
    me: PeerId,
    i: int,
)
    requires
        0 <= i < owed_votes(rows, pools, votes, me).len(),
    ensures
        ({
            let (pool, fee) = owed_votes(rows, pools, votes, me)[i];
            &&& at(pools, PoolKey(pool)) is Some
            &&& at(votes, FeeVoteKey { pool, peer: me }) != Some(fee)
        }),
    decreases rows.len(),
{
    if rows.len() > 0 && i < owed_votes(rows.drop_last(), pools, votes, me).len() {
        lemma_owed_vote(rows.drop_last(), pools, votes, me, i);
    }
}

/// An intent for an existing pool is proposed again and again until exactly that
/// vote is recorded, and then no more.
pub proof fn law_an_intent_is_proposed_until_recorded(
    rows: Seq<(DesiredFeeKey, u16)>,
    pools: Map<PoolKey, Pool>,
    votes: Map<FeeVoteKey, u16>,
    me: PeerId,
    i: int,
)
    requires
        0 <= i < rows.len(),
        at(pools, PoolKey(rows[i].0.0)) is Some,
    ensures
        owed_votes(rows, pools, votes, me).contains((rows[i].0.0, rows[i].1)) <==> at(
            votes,
            FeeVoteKey { pool: rows[i].0.0, peer: me },
        ) != Some(rows[i].1),
{
    let wanted = (rows[i].0.0, rows[i].1);
    let owed = owed_votes(rows, pools, votes, me);
    if at(votes, FeeVoteKey { pool: rows[i].0.0, peer: me }) != Some(rows[i].1) {
        lemma_owed_contains(rows, pools, votes, me, i);
    } else if owed.contains(wanted) {
        let j = choose|j: int| 0 <= j < owed.len() && owed[j] == wanted;
        lemma_owed_vote(rows, pools, votes, me, j);
    }
}

proof fn lemma_owed_contains(
    rows: Seq<(DesiredFeeKey, u16)>,
    pools: Map<PoolKey, Pool>,
    votes: Map<FeeVoteKey, u16>,
    me: PeerId,
    i: int,
)
    requires
        0 <= i < rows.len(),
        at(pools, PoolKey(rows[i].0.0)) is Some,
        at(votes, FeeVoteKey { pool: rows[i].0.0, peer: me }) != Some(rows[i].1),
    ensures
        owed_votes(rows, pools, votes, me).contains((rows[i].0.0, rows[i].1)),
    decreases rows.len(),
{
    let owed = owed_votes(rows, pools, votes, me);
    let front = owed_votes(rows.drop_last(), pools, votes, me);
    if i == rows.len() - 1 {
        assert(owed[owed.len() - 1] == (rows[i].0.0, rows[i].1));
    } else {
        lemma_owed_contains(rows.drop_last(), pools, votes, me, i);
        let j = choose|j: int| 0 <= j < front.len() && front[j] == (rows[i].0.0, rows[i].1);
        assert(owed[j] == front[j]);
    }
}

/// A guardian's vote is taken down exactly when its fee lies in the band, its pool
/// exists, and it is not the vote that is recorded already; an item of an unknown
/// kind never is. A refusal names the first of these that fails.
pub proof fn law_votes_are_taken_down_for_a_reason(
    amm: Amm,
    s: LedgerView,
    pool: PoolId,
    fee_per_mille: u16,
    peer: PeerId,
)
    ensures
        ({
            let vote = AmmConsensusItem::FeeVoteV0 { pool, fee_per_mille };
            let key = FeeVoteKey { pool, peer };
            let in_band = fee_per_mille >= amm.cfg.min_fee_per_mille && fee_per_mille
                <= amm.cfg.max_fee_per_mille;
            let exists_pool = s.pools.dom().contains(PoolKey(pool));
            let recorded = s.fee_votes.dom().contains(key) && s.fee_votes[key] == fee_per_mille;
            match item_error(amm, s, vote, peer) {
                None => in_band && exists_pool && !recorded,
                Some(ConsensusItemError::OutOfBand { fee_per_mille: fee }) => !in_band && fee
                    == fee_per_mille,
                Some(ConsensusItemError::NoSuchPool) => in_band && !exists_pool,
                Some(ConsensusItemError::Redundant) => in_band && exists_pool && recorded,
                Some(ConsensusItemError::UnknownVariant { .. }) => false,
            }
        }),
        forall|item: AmmConsensusItem|
            (#[trigger] item_error(amm, s, item, peer)) is None ==> item is FeeVoteV0,
{
}

/// Whatever is proposed is an intent of this guardian for a pool that exists, and
/// nothing is proposed that is recorded already.
pub proof fn law_only_unrecorded_intents_are_proposed(
    rows: Seq<(DesiredFeeKey, u16)>,
    pools: Map<PoolKey, Pool>,
    votes: Map<FeeVoteKey, u16>,
    me: PeerId,
    proposed: (PoolId, u16),
)
    requires
        owed_votes(rows, pools, votes, me).contains(proposed),
    ensures
        pools.dom().contains(PoolKey(proposed.0)),
        rows.contains((DesiredFeeKey(proposed.0), proposed.1)),
        !(votes.dom().contains(FeeVoteKey { pool: proposed.0, peer: me }) && votes[FeeVoteKey {
            pool: proposed.0,
            peer: me,
        }] == proposed.1),
    decreases rows.len(),
{
    let owed = owed_votes(rows, pools, votes, me);
    let i = choose|i: int| 0 <= i < owed.len() && owed[i] == proposed;
    lemma_owed_vote(rows, pools, votes, me, i);
    let front = owed_votes(rows.drop_last(), pools, votes, me);
    if i < front.len() {
        assert(front[i] == proposed);
        law_only_unrecorded_intents_are_proposed(rows.drop_last(), pools, votes, me, proposed);
        let row = (DesiredFeeKey(proposed.0), proposed.1);
        let j = choose|j: int| 0 <= j < rows.drop_last().len() && rows.drop_last()[j] == row;
        assert(rows[j] == row);
    } else {
        assert(rows[rows.len() - 1] == (DesiredFeeKey(proposed.0), proposed.1));
    }
}

} // verus!
