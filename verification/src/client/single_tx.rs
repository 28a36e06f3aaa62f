//! The progress of deposits and withdrawals, which are one transaction each, and
//! what the client remembers of its positions.

use vstd::prelude::*;

use crate::client::db::{
    ClientDb, LpPositionKey, LpPositionRecord, OperationId, TransactionId,
};
use crate::crypto::PublicKey;
use crate::pool_id::PoolId;

verus! {

/// What stays the same while a deposit progresses.
#[derive(Debug, Clone, Copy, PartialEq, Eq, Hash)]
pub struct DepositCommon {
    pub operation_id: OperationId,
    pub pool: PoolId,
    pub owner_pk: PublicKey,
    /// What the owner key is derived from.
    pub tweak: [u8; 16],
    /// The shares that a preview promised.
    pub expected_shares: u64,
}

/// How far a deposit has come.
#[derive(Debug, Clone, PartialEq, Eq, Hash)]
pub enum DepositState {
    Submitted { txid: TransactionId },
    Accepted,
    Rejected(String),
}

/// A deposit in progress.
#[derive(Debug, Clone, PartialEq, Eq, Hash)]
pub struct DepositStateMachine {
    pub common: DepositCommon,
    pub state: DepositState,
}

/// What stays the same while a withdrawal progresses.
#[derive(Debug, Clone, Copy, PartialEq, Eq, Hash)]
pub struct WithdrawCommon {
    pub operation_id: OperationId,
    pub pool: PoolId,
    pub owner_pk: PublicKey,
    /// The shares that are burned.
    pub shares: u64,
}

/// How far a withdrawal has come.
#[derive(Debug, Clone, PartialEq, Eq, Hash)]
pub enum WithdrawState {
    Submitted { txid: TransactionId },
    Accepted,
    Rejected(String),
}

/// A withdrawal in progress.
#[derive(Debug, Clone, PartialEq, Eq, Hash)]
pub struct WithdrawStateMachine {
    pub common: WithdrawCommon,
    pub state: WithdrawState,
}

impl DepositStateMachine {
    /// The operation that the deposit belongs to.
    pub fn operation_id(&self) -> (r: OperationId)
        ensures
            r == self.common.operation_id,
    {
        self.common.operation_id
    }

    /// The transaction that the deposit waits for; none once it is over.
    pub fn awaited(&self) -> (r: Option<TransactionId>)
        ensures
            r == (match self.state {
                DepositState::Submitted { txid } => Some(txid),
                _ => None::<TransactionId>,
            }),
    {
        match &self.state {
            DepositState::Submitted { txid } => Some(*txid),
            DepositState::Accepted | DepositState::Rejected(_) => None,
        }
    }
}

impl WithdrawStateMachine {
    /// The operation that the withdrawal belongs to.
    pub fn operation_id(&self) -> (r: OperationId)
        ensures
            r == self.common.operation_id,
    {
        self.common.operation_id
    }

    /// The transaction that the withdrawal waits for; none once it is over.
    pub fn awaited(&self) -> (r: Option<TransactionId>)
        ensures
            r == (match self.state {
                WithdrawState::Submitted { txid } => Some(txid),
                _ => None::<TransactionId>,
            }),
    {
        match &self.state {
            WithdrawState::Submitted { txid } => Some(*txid),
            WithdrawState::Accepted | WithdrawState::Rejected(_) => None,
        }
    }
}

/// Ends a deposit with what became of its transaction. An accepted deposit is
/// remembered as a position; a refused one leaves no trace.
pub fn transition_submitted(
    db: &mut ClientDb,
    result: Result<(), String>,
    old_state: DepositStateMachine,
) -> (r: DepositStateMachine)
    requires
        old(db).wf(),
    ensures
        final(db).wf(),
        r.common == old_state.common,
        match result {
            Ok(_) => r.state == DepositState::Accepted && final(db).positions.view() == old(
                db
            ).positions.view().insert(
                LpPositionKey {
                    pool: old_state.common.pool,
                    owner_pk: old_state.common.owner_pk,
                },
                LpPositionRecord {
                    tweak: old_state.common.tweak,
                    shares: old_state.common.expected_shares,
                },
            ),
            Err(error) => r.state == DepositState::Rejected(error) && final(db).positions == old(
                db
            ).positions,
        },
        final(db).recovered == old(db).recovered,
        final(db).outcomes == old(db).outcomes,
{
    let common = old_state.common;
    match result {
        Ok(()) => {
            db.positions.insert(
                LpPositionKey { pool: common.pool, owner_pk: common.owner_pk },
                LpPositionRecord { tweak: common.tweak, shares: common.expected_shares },
            );
            DepositStateMachine { common, state: DepositState::Accepted }
        },
        Err(error) => DepositStateMachine { common, state: DepositState::Rejected(error) },
    }
}

/// What is remembered of a position once `shares` of it are burned: nothing
/// where no more were remembered than were burned.
pub open spec fn position_after_burn(
    record: Option<LpPositionRecord>,
    shares: u64,
) -> Option<LpPositionRecord> {
    match record {
        None => None,
        Some(record) => if record.shares <= shares {
            None
        } else {
            Some(
                LpPositionRecord {
                    tweak: record.tweak,
                    shares: (record.shares - shares) as u64,
                },
            )
        },
    }
}

/// Ends a withdrawal with what became of its transaction. Of an accepted one the
/// remembered shares are taken off; a refused one changes nothing.
pub fn transition_withdraw_submitted(
    db: &mut ClientDb,
    result: Result<(), String>,
    old_state: WithdrawStateMachine,
) -> (r: WithdrawStateMachine)
    requires
        old(db).wf(),
    ensures
        final(db).wf(),
        r.common == old_state.common,
        match result {
            Ok(_) => {
                let key = LpPositionKey {
                    pool: old_state.common.pool,
                    owner_pk: old_state.common.owner_pk,
                };
                &&& r.state == WithdrawState::Accepted
                &&& match position_after_burn(
                    old(db).positions.lookup(key),
                    old_state.common.shares,
                ) {
                    Some(record) => final(db).positions.view() == old(db).positions.view().insert(
                        key,
                        record,
                    ),
                    None => final(db).positions.view() == old(db).positions.view().remove(key),
                }
            },
            Err(error) => r.state == WithdrawState::Rejected(error) && final(db).positions == old(
                db
            ).positions,
        },
        final(db).recovered == old(db).recovered,
        final(db).outcomes == old(db).outcomes,
{
    let common = old_state.common;
    match result {
        Ok(()) => {
            let key = LpPositionKey { pool: common.pool, owner_pk: common.owner_pk };
            match db.positions.get(&key) {
                Some(record) => {
                    if record.shares <= common.shares {
                        db.positions.remove(&key);
                    } else {
                        db.positions.insert(
                            key,
                            LpPositionRecord {
                                tweak: record.tweak,
                                shares: record.shares - common.shares,
                            },
                        );
                    }
                },
                None => {
                    assert(db.positions.view() =~= old(db).positions.view().remove(key));
                },
            }
            WithdrawStateMachine { common, state: WithdrawState::Accepted }
        },
        Err(error) => WithdrawStateMachine { common, state: WithdrawState::Rejected(error) },
    }
}

/// A burn leaves a position with what it held less what was burned, under the same
/// tweak; a position with nothing left, or that was not there, is not there.
pub proof fn law_a_burn_leaves_the_rest(record: Option<LpPositionRecord>, shares: u64)
    ensures
        match (record, position_after_burn(record, shares)) {
            (Some(held), Some(left)) => left.shares + shares == held.shares && left.shares > 0
                && left.tweak == held.tweak,
            (Some(held), None) => held.shares <= shares,
            (None, left) => left is None,
        },
{
}

} // verus!
