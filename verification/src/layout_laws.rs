//! Where each byte of an encoding stands.

use vstd::prelude::*;

use crate::client::single_tx::{
    DepositState, DepositStateMachine, WithdrawState, WithdrawStateMachine,
};
use crate::client::swap::{SwapState, SwapStateMachine};
use crate::crypto::PublicKey;
use crate::encoding::{
    big_endian, bigsize, bigsizes, byte_string, lemma_bigsizes_push, text_bytes,
};
use crate::pool_id::PoolId;
use crate::pop::{deposit_payload, swap_payload};
use crate::server::db::{BalanceKey, DesiredFeeKey, FeeVoteKey, LpPositionKey, PoolKey};
use crate::table::TableKey;
use crate::types::{AmmConsensusItem, AmmInput, AmmOutput};
use crate::units::{Amount, AmountUnit};

verus! {

/// The bytes of an integer in plain numbers: itself up to 252; else 253, 254 or
/// 255 and two, four or eight bytes, the most significant first, as few as hold
/// it.
pub proof fn law_an_integer_takes_as_few_bytes_as_hold_it(v: u64)
    ensures
        ({
            let b = bigsize(v);
            if v <= 252 {
                b.len() == 1 && b[0] == v
            } else if v < 65_536 {
                b.len() == 3 && b[0] == 253 && b[1] * 256 + b[2] == v
            } else if v < 4_294_967_296 {
                b.len() == 5 && b[0] == 254 && ((b[1] * 256 + b[2]) * 256 + b[3]) * 256 + b[4] == v
            } else {
                &&& b.len() == 9 && b[0] == 255
                &&& ((((((b[1] * 256 + b[2]) * 256 + b[3]) * 256 + b[4]) * 256 + b[5]) * 256 + b[6])
                    * 256 + b[7]) * 256 + b[8] == v
            }
        }),
{
    reveal_with_fuel(big_endian, 9);
}

/// Two to five integers in a row are their encodings one after the other.
proof fn lemma_in_a_row(a: u64, b: u64, c: u64, d: u64, e: u64)
    ensures
        bigsizes(seq![a, b]) == bigsize(a) + bigsize(b),
        bigsizes(seq![a, b, c]) == bigsize(a) + bigsize(b) + bigsize(c),
        bigsizes(seq![a, b, c, d]) == bigsize(a) + bigsize(b) + bigsize(c) + bigsize(d),
        bigsizes(seq![a, b, c, d, e]) == bigsize(a) + bigsize(b) + bigsize(c) + bigsize(d)
            + bigsize(e),
{
    let none = Seq::<u64>::empty();
    lemma_bigsizes_push(none, a);
    lemma_bigsizes_push(seq![a], b);
    lemma_bigsizes_push(seq![a, b], c);
    lemma_bigsizes_push(seq![a, b, c], d);
    lemma_bigsizes_push(seq![a, b, c, d], e);
    assert(none.push(a) =~= seq![a]);
    assert(seq![a].push(b) =~= seq![a, b]);
    assert(seq![a, b].push(c) =~= seq![a, b, c]);
    assert(seq![a, b, c].push(d) =~= seq![a, b, c, d]);
    assert(seq![a, b, c, d].push(e) =~= seq![a, b, c, d, e]);
    assert(bigsizes(none) + bigsize(a) =~= bigsize(a));
}

/// A swap is item zero. What its proof covers are a zero, the unit sold, the unit
/// bought, the amount sold, the least to be paid, the recipient's key and the
/// tweak; its encoding holds the same fields and the proof.
pub proof fn law_layout_of_a_swap(
    unit_in: AmountUnit,
    unit_out: AmountUnit,
    amount_in: Amount,
    min_out: Amount,
    recipient_pk: PublicKey,
    tweak: [u8; 16],
    pop: [u8; 64],
)
    ensures
        ({
            let fields = bigsize(unit_in.id) + bigsize(unit_out.id) + bigsize(amount_in.msats)
                + bigsize(min_out.msats) + recipient_pk.bytes@ + tweak@;
            let output = AmmOutput::SwapV0 {
                unit_in,
                unit_out,
                amount_in,
                min_out,
                recipient_pk,
                tweak,
                pop,
            };
            &&& swap_payload(unit_in, unit_out, amount_in, min_out, recipient_pk, tweak) == seq![0u8]
                + fields
            &&& output.encoded() == seq![0u8] + byte_string(fields + pop@)
        }),
{
    lemma_in_a_row(unit_in.id, unit_out.id, amount_in.msats, min_out.msats, 0);
}

/// A deposit is item one. What its proof covers are a one, the pool's low and high
/// unit, the low and the high amount, the least shares, the owner's key and the
/// tweak; its encoding holds the same fields and the proof.
pub proof fn law_layout_of_a_deposit(
    pool: PoolId,
    amount_lo: Amount,
    amount_hi: Amount,
    min_shares: u64,
    owner_pk: PublicKey,
    tweak: [u8; 16],
    pop: [u8; 64],
)
    ensures
        ({
            let fields = bigsize(pool.low().id) + bigsize(pool.high().id) + bigsize(amount_lo.msats)
                + bigsize(amount_hi.msats) + bigsize(min_shares) + owner_pk.bytes@ + tweak@;
            let output = AmmOutput::DepositV0 {
                pool,
                amount_lo,
                amount_hi,
                min_shares,
                owner_pk,
                tweak,
                pop,
            };
            &&& deposit_payload(pool, amount_lo, amount_hi, min_shares, owner_pk, tweak)
                == seq![1u8] + fields
            &&& output.encoded() == seq![1u8] + byte_string(fields + pop@)
        }),
{
    lemma_in_a_row(
        pool.low().id,
        pool.high().id,
        amount_lo.msats,
        amount_hi.msats,
        min_shares,
    );
}

/// A claim is input zero: its key, then the unit. A withdrawal is input one: the
/// pool's low and high unit, the owner's key, the shares, the least of both units
/// and the most of both. A fee vote is item zero of consensus: the pool's low and
/// high unit, then the fee.
pub proof fn law_layout_of_inputs_and_votes(
    pubkey: PublicKey,
    unit: AmountUnit,
    pool: PoolId,
    shares: u64,
    min_lo: Amount,
    min_hi: Amount,
    max_lo: Amount,
    max_hi: Amount,
    fee_per_mille: u16,
)
    ensures
        (AmmInput::ClaimBalanceV0 { pubkey, unit }).encoded() == seq![0u8] + byte_string(
            pubkey.bytes@ + bigsize(unit.id),
        ),
        (AmmInput::WithdrawV0 {
            pool,
            owner_pk: pubkey,
            shares,
            min_lo,
            min_hi,
            max_lo,
            max_hi,
        }).encoded() == seq![1u8] + byte_string(
            bigsize(pool.low().id) + bigsize(pool.high().id) + pubkey.bytes@ + (bigsize(shares)
                + bigsize(min_lo.msats) + bigsize(min_hi.msats) + bigsize(max_lo.msats) + bigsize(
                max_hi.msats,
            )),
        ),
        (AmmConsensusItem::FeeVoteV0 { pool, fee_per_mille }).encoded() == seq![0u8] + byte_string(
            bigsize(pool.low().id) + bigsize(pool.high().id) + bigsize(fee_per_mille as u64),
        ),
{
    lemma_in_a_row(pool.low().id, pool.high().id, fee_per_mille as u64, 0, 0);
    lemma_in_a_row(shares, min_lo.msats, min_hi.msats, max_lo.msats, max_hi.msats);
}

/// Every table's keys start with the table's number, from one to five: pools,
/// positions, balances, votes and intents. A pool is its low and high unit; a
/// position its pool and owner; a balance its owner and unit; a vote its pool and
/// guardian; an intent its pool.
pub proof fn law_layout_of_table_keys(
    pool: PoolId,
    owner: PublicKey,
    unit: AmountUnit,
    vote: FeeVoteKey,
)
    ensures
        ({
            let units = bigsize(pool.low().id) + bigsize(pool.high().id);
            &&& PoolKey(pool).key_bytes() == seq![1u8] + units
            &&& (LpPositionKey { pool, owner }).key_bytes() == seq![2u8] + units + owner.bytes@
            &&& (BalanceKey { owner, unit }).key_bytes() == seq![3u8] + owner.bytes@ + bigsize(
                unit.id,
            )
            &&& vote.pool == pool ==> vote.key_bytes() == seq![4u8] + units + bigsize(
                vote.peer.id as u64,
            )
            &&& DesiredFeeKey(pool).key_bytes() == seq![5u8] + units
        }),
{
    lemma_in_a_row(pool.low().id, pool.high().id, 0, 0, 0);
    let units = bigsize(pool.low().id) + bigsize(pool.high().id);
    assert(pool.encoded() =~= units);
    assert((LpPositionKey { pool, owner }).key_bytes() =~= seq![2u8] + units + owner.bytes@);
}

/// The text of a state, if it has one, and its kind's number among the states of
/// a swap: sent, refused, accepted, failed, claim sent, done.
pub proof fn law_layout_of_a_swap_in_progress(machine: SwapStateMachine)
    ensures
        ({
            let common = machine.common;
            let (number, content) = match machine.state {
                SwapState::Tx1Submitted { txid } => (0u8, txid.bytes@),
                SwapState::Tx1Rejected(words) => (1u8, text_bytes(words@)),
                SwapState::Tx1Accepted { attempts } => (2u8, bigsize(attempts as u64)),
                SwapState::Tx2Failed { attempts, error } => (
                    3u8,
                    bigsize(attempts as u64) + text_bytes(error@),
                ),
                SwapState::Tx2Submitted { txid, attempts } => (
                    4u8,
                    txid.bytes@ + bigsize(attempts as u64),
                ),
                SwapState::Done => (5u8, Seq::<u8>::empty()),
            };
            machine.encoded() == common.operation_id.bytes@ + bigsize(common.unit_out.id)
                + common.recipient_keypair.secret_bytes() + (seq![number] + byte_string(content))
        }),
{
}

/// A deposit or a withdrawal in progress is its operation, its pool's two units,
/// its owner's key, then the tweak and the shares that a deposit expects or the
/// shares that a withdrawal burns; and last its state, sent, accepted or refused.
pub proof fn law_layout_of_a_deposit_or_withdrawal_in_progress(
    deposit: DepositStateMachine,
    withdraw: WithdrawStateMachine,
)
    ensures
        ({
            let common = deposit.common;
            let (number, content) = match deposit.state {
                DepositState::Submitted { txid } => (0u8, txid.bytes@),
                DepositState::Accepted => (1u8, Seq::<u8>::empty()),
                DepositState::Rejected(words) => (2u8, text_bytes(words@)),
            };
            deposit.encoded() == common.operation_id.bytes@ + (bigsize(common.pool.low().id)
                + bigsize(common.pool.high().id)) + common.owner_pk.bytes@ + common.tweak@
                + bigsize(common.expected_shares) + (seq![number] + byte_string(content))
        }),
        ({
            let common = withdraw.common;
            let (number, content) = match withdraw.state {
                WithdrawState::Submitted { txid } => (0u8, txid.bytes@),
                WithdrawState::Accepted => (1u8, Seq::<u8>::empty()),
                WithdrawState::Rejected(words) => (2u8, text_bytes(words@)),
            };
            withdraw.encoded() == common.operation_id.bytes@ + (bigsize(common.pool.low().id)
                + bigsize(common.pool.high().id)) + common.owner_pk.bytes@ + bigsize(common.shares)
                + (seq![number] + byte_string(content))
        }),
{
    let p = deposit.common.pool;
    let q = withdraw.common.pool;
    lemma_in_a_row(p.low().id, p.high().id, 0, 0, 0);
    lemma_in_a_row(q.low().id, q.high().id, 0, 0, 0);
    assert(p.encoded() =~= bigsize(p.low().id) + bigsize(p.high().id));
    assert(q.encoded() =~= bigsize(q.low().id) + bigsize(q.high().id));
}

} // verus!
