//! The progress of a swap.
//!
//! A swap is two transactions: the first creates a balance, the second claims
//! it. A balance stays claimable for ever, so once it exists the client never
//! gives up: whatever goes wrong with the second transaction, it waits and
//! tries again.

use vstd::prelude::*;

use crate::client::db::{ClientDb, OperationId, SwapOutcome, SwapOutcomeKey, TransactionId};
use crate::crypto::{Keypair, PublicKey};
use crate::types::AmmInput;
use crate::units::{Amount, AmountUnit, Amounts};

verus! {

/// What stays the same while a swap progresses.
#[derive(Debug, Clone, Copy, PartialEq, Eq)]
pub struct SwapCommon {
    pub operation_id: OperationId,
    /// The unit that the swap pays out.
    pub unit_out: AmountUnit,
    /// The key that the proceeds are credited to.
    pub recipient_keypair: Keypair,
}

/// How far a swap has come.
#[derive(Debug, Clone, PartialEq, Eq, Hash)]
pub enum SwapState {
    Tx1Submitted { txid: TransactionId },
    Tx1Rejected(String),
    /// The balance exists. `attempts` counts the failed tries to claim it.
    Tx1Accepted { attempts: u32 },
    /// The last try to claim failed; the next one comes after a pause.
    Tx2Failed { attempts: u32, error: String },
    Tx2Submitted { txid: TransactionId, attempts: u32 },
    Done,
}

/// A swap in progress.
#[derive(Debug, Clone, PartialEq, Eq)]
pub struct SwapStateMachine {
    pub common: SwapCommon,
    pub state: SwapState,
}

/// What a swap waits for.
#[derive(Debug, Clone, Copy, PartialEq, Eq)]
pub enum SwapAction {
    /// Whether a transaction is accepted.
    AwaitTransaction { txid: TransactionId },
    /// What the recipient can claim; where there is something, that it be
    /// claimed.
    Claim { pubkey: PublicKey, unit: AmountUnit },
    /// The pause before the next try.
    Pause { attempts: u32 },
    /// Nothing: the swap is over.
    Nothing,
}

/// What can happen to a swap.
#[derive(Debug, Clone, PartialEq, Eq)]
pub enum SwapEvent {
    /// The transaction that was waited for is accepted.
    Accepted,
    /// The transaction that was waited for is refused.
    Rejected(String),
    /// There is nothing to claim: an earlier try has claimed it.
    NothingToClaim,
    /// A claim of `balance` is on its way.
    ClaimSubmitted { txid: TransactionId, balance: Amount },
    /// The claim could not be put on its way.
    ClaimFailed(String),
    /// The pause is over.
    PauseOver,
}

impl SwapState {
    /// The tries to claim that have failed so far.
    pub open spec fn failed_attempts(self) -> int {
        match self {
            SwapState::Tx1Accepted { attempts } => attempts as int,
            SwapState::Tx2Failed { attempts, .. } => attempts as int,
            SwapState::Tx2Submitted { attempts, .. } => attempts as int,
            _ => 0,
        }
    }

    /// Whether the balance exists and has not been claimed.
    pub open spec fn claiming(self) -> bool {
        self is Tx1Accepted || self is Tx2Failed || self is Tx2Submitted
    }

    /// Whether the swap is over.
    pub open spec fn terminal(self) -> bool {
        self is Tx1Rejected || self is Done
    }
}

/// Where a swap goes from `state` when `event` happens. An event that the state
/// does not wait for leaves it where it is.
pub open spec fn state_after(state: SwapState, event: SwapEvent) -> SwapState {
    match (state, event) {
        (SwapState::Tx1Submitted { .. }, SwapEvent::Accepted) => SwapState::Tx1Accepted {
            attempts: 0,
        },
        (SwapState::Tx1Submitted { .. }, SwapEvent::Rejected(error)) => SwapState::Tx1Rejected(
            error,
        ),
        (SwapState::Tx1Accepted { .. }, SwapEvent::NothingToClaim) => SwapState::Done,
        (SwapState::Tx1Accepted { attempts }, SwapEvent::ClaimSubmitted { txid, balance }) =>
            SwapState::Tx2Submitted { txid, attempts },
        (SwapState::Tx1Accepted { attempts }, SwapEvent::ClaimFailed(error)) =>
            SwapState::Tx2Failed { attempts: (attempts + 1) as u32, error },
        (SwapState::Tx2Failed { attempts, .. }, SwapEvent::PauseOver) => SwapState::Tx1Accepted {
            attempts,
        },
        (SwapState::Tx2Submitted { .. }, SwapEvent::Accepted) => SwapState::Done,
        (SwapState::Tx2Submitted { attempts, .. }, SwapEvent::Rejected(error)) =>
            SwapState::Tx2Failed { attempts: (attempts + 1) as u32, error },
        _ => state,
    }
}

/// Whether the event is one more failure of the second transaction.
pub open spec fn counts_a_failure(state: SwapState, event: SwapEvent) -> bool {
    (state is Tx1Accepted && event is ClaimFailed) || (state is Tx2Submitted && event is Rejected)
}

/// What the event makes known of the swap's outcome.
pub open spec fn outcome_after(state: SwapState, event: SwapEvent) -> Option<SwapOutcome> {
    match (state, event) {
        (SwapState::Tx1Submitted { .. }, SwapEvent::Rejected(error)) => Some(
            SwapOutcome::Tx1Rejected(error),
        ),
        (SwapState::Tx1Accepted { .. }, SwapEvent::ClaimSubmitted { txid, balance }) => Some(
            SwapOutcome::Settled { amount_out: balance },
        ),
        _ => None,
    }
}

/// Whatever went wrong with the second transaction, it is tried again.
pub fn next_after_tx2_failure(prior_attempts: u32, error: String) -> (r: SwapState)
    requires
        prior_attempts < u32::MAX,
    ensures
        r == (SwapState::Tx2Failed { attempts: (prior_attempts + 1) as u32, error }),
{
    SwapState::Tx2Failed { attempts: prior_attempts + 1, error }
}

impl SwapStateMachine {
    /// The operation that the swap belongs to.
    pub fn operation_id(&self) -> (r: OperationId)
        ensures
            r == self.common.operation_id,
    {
        self.common.operation_id
    }

    /// What the swap waits for.
    pub open spec fn waits_for(self) -> SwapAction {
        match self.state {
            SwapState::Tx1Submitted { txid } => SwapAction::AwaitTransaction { txid },
            SwapState::Tx1Accepted { .. } => SwapAction::Claim {
                pubkey: self.common.recipient_keypair.public(),
                unit: self.common.unit_out,
            },
            SwapState::Tx2Failed { attempts, .. } => SwapAction::Pause { attempts },
            SwapState::Tx2Submitted { txid, .. } => SwapAction::AwaitTransaction { txid },
            SwapState::Tx1Rejected(_) => SwapAction::Nothing,
            SwapState::Done => SwapAction::Nothing,
        }
    }

    /// What the swap waits for.
    pub fn action(&self) -> (r: SwapAction)
        ensures
            r == self.waits_for(),
    {
        match &self.state {
            SwapState::Tx1Submitted { txid } => SwapAction::AwaitTransaction { txid: *txid },
            SwapState::Tx1Accepted { .. } => SwapAction::Claim {
                pubkey: self.common.recipient_keypair.public_key(),
                unit: self.common.unit_out,
            },
            SwapState::Tx2Failed { attempts, .. } => SwapAction::Pause { attempts: *attempts },
            SwapState::Tx2Submitted { txid, .. } => SwapAction::AwaitTransaction { txid: *txid },
            SwapState::Tx1Rejected(_) | SwapState::Done => SwapAction::Nothing,
        }
    }

    /// Takes the swap one step further, and keeps what became known of its
    /// outcome.
    pub fn advance(self, event: SwapEvent, db: &mut ClientDb) -> (r: SwapStateMachine)
        requires
            old(db).wf(),
            counts_a_failure(self.state, event) ==> self.state.failed_attempts() < u32::MAX,
        ensures
            r.common == self.common,
            r.state == state_after(self.state, event),
            final(db).wf(),
            match outcome_after(self.state, event) {
                Some(outcome) => final(db).outcomes.view() == old(db).outcomes.view().insert(
                    SwapOutcomeKey(self.common.operation_id),
                    outcome,
                ),
                None => final(db).outcomes == old(db).outcomes,
            },
            final(db).positions == old(db).positions,
            final(db).recovered == old(db).recovered,
    {
        let common = self.common;
        let key = SwapOutcomeKey(common.operation_id);
        let state = match (self.state, event) {
            (SwapState::Tx1Submitted { .. }, SwapEvent::Accepted) => SwapState::Tx1Accepted {
                attempts: 0,
            },
            (SwapState::Tx1Submitted { .. }, SwapEvent::Rejected(error)) => {
                db.outcomes.insert(key, SwapOutcome::Tx1Rejected(error.clone()));
                SwapState::Tx1Rejected(error)
            },
            (SwapState::Tx1Accepted { .. }, SwapEvent::NothingToClaim) => SwapState::Done,
            (
                SwapState::Tx1Accepted { attempts },
                SwapEvent::ClaimSubmitted { txid, balance },
            ) => {
                db.outcomes.insert(key, SwapOutcome::Settled { amount_out: balance });
                SwapState::Tx2Submitted { txid, attempts }
            },
            (SwapState::Tx1Accepted { attempts }, SwapEvent::ClaimFailed(error)) => {
                next_after_tx2_failure(attempts, error)
            },
            (SwapState::Tx2Failed { attempts, .. }, SwapEvent::PauseOver) => {
                SwapState::Tx1Accepted { attempts }
            },
            (SwapState::Tx2Submitted { .. }, SwapEvent::Accepted) => SwapState::Done,
            (SwapState::Tx2Submitted { attempts, .. }, SwapEvent::Rejected(error)) => {
                next_after_tx2_failure(attempts, error)
            },
            (state, _) => state,
        };
        SwapStateMachine { common, state }
    }
}

/// An input, the keys that sign for it, and what it provides.
#[derive(Debug, Clone, PartialEq, Eq)]
pub struct ClientInput {
    pub input: AmmInput,
    pub keys: Vec<Keypair>,
    pub amounts: Amounts,
}

/// The input that claims a balance: it declares exactly the balance that was
/// just read, and is signed for by the key that owns it.
pub fn build_claim_input(keypair: Keypair, unit: AmountUnit, balance: Amount) -> (r: ClientInput)
    ensures
        r.input == (AmmInput::ClaimBalanceV0 { pubkey: keypair.public(), unit }),
        r.keys@ == seq![keypair],
        r.amounts.wf(),
        forall|u: AmountUnit| #[trigger]
            r.amounts.of(u) == (if u == unit {
                balance.msats as int
            } else {
                0
            }),
{
    let keys = vec![keypair];
    assert(keys@ =~= seq![keypair]);
    ClientInput {
        input: AmmInput::ClaimBalanceV0 { pubkey: keypair.public_key(), unit },
        keys,
        amounts: Amounts::new_custom(unit, balance),
    }
}

/// What the next step of a claim is, once the balance has been read: to submit
/// the input, or nothing where the balance is gone.
pub fn claim_step(common: &SwapCommon, balance: Option<Amount>) -> (r: Option<ClientInput>)
    ensures
        match (balance, r) {
            (Some(amount), Some(input)) => {
                &&& input.input == (AmmInput::ClaimBalanceV0 {
                    pubkey: common.recipient_keypair.public(),
                    unit: common.unit_out,
                })
                &&& input.keys@ == seq![common.recipient_keypair]
                &&& input.amounts.wf()
                &&& forall|u: AmountUnit| #[trigger]
                    input.amounts.of(u) == (if u == common.unit_out {
                        amount.msats as int
                    } else {
                        0
                    })
            },
            (None, None) => true,
            _ => false,
        },
{
    match balance {
        Some(amount) => Some(
            build_claim_input(common.recipient_keypair, common.unit_out, amount),
        ),
        None => None,
    }
}

/// The pause, in whole seconds and without the random part, before try number
/// `n` counted from zero: Fibonacci numbers, until one exceeds a minute.
pub open spec fn backoff_seconds(n: nat) -> int
    decreases n,
{
    if n < 2 {
        1
    } else {
        let last = backoff_seconds((n - 1) as nat);
        if last >= 60 {
            last
        } else {
            last + backoff_seconds((n - 2) as nat)
        }
    }
}

/// `fedimint_core::util::backoff_util::background_backoff`, its element number
/// `n` counted from zero, in nanoseconds: there is one, and it is the pause of
/// that number plus a random part of at most a second.
#[verifier::external_body]
fn background_backoff_nanos(n: usize) -> (r: Option<u128>)
    requires
        n < u32::MAX,
    ensures
        r is Some,
        r->0 >= backoff_seconds(n as nat) * 1_000_000_000,
        r->0 <= (backoff_seconds(n as nat) + 1) * 1_000_000_000,
{
    let mut delays = fedimint_core::util::backoff_util::background_backoff();
    delays.nth(n).map(|delay| delay.as_nanos())
}

/// The pause never exceeds 89 seconds, and does not shrink.
pub proof fn lemma_backoff_bounded(n: nat)
    ensures
        1 <= backoff_seconds(n) <= 89,
        n > 0 ==> backoff_seconds((n - 1) as nat) <= backoff_seconds(n),
        n >= 10 ==> backoff_seconds(n) == 89,
    decreases n,
{
    reveal_with_fuel(backoff_seconds, 12);
    if n > 10 {
        lemma_backoff_bounded((n - 1) as nat);
    } else if n > 0 {
        lemma_backoff_bounded((n - 1) as nat);
    }
}

/// The pause before retry number `attempt`, counted from one, in nanoseconds.
/// It grows at first and then stays below a minute and a half.
pub fn retry_delay(attempt: u32) -> (r: u64)
    ensures
        ({
            let n = if attempt == 0 {
                0
            } else {
                (attempt - 1) as nat
            };
            backoff_seconds(n) * 1_000_000_000 <= r <= (backoff_seconds(n) + 1) * 1_000_000_000
        }),
        1_000_000_000 <= r <= 90_000_000_000,
{
    let n: u32 = if attempt == 0 {
        0
    } else {
        attempt - 1
    };
    proof {
        lemma_backoff_bounded(n as nat);
    }
    match background_backoff_nanos(n as usize) {
        Some(nanos) => nanos as u64,
        None => 90_000_000_000,
    }
}

/// Once the balance exists, no event makes the client give it up: the swap goes
/// on claiming, or the balance has been claimed. In particular a failure of the
/// second transaction, the hundredth as much as the first, leads back to
/// another try.
pub proof fn law_a_balance_is_never_given_up(state: SwapState, event: SwapEvent)
    requires
        state.claiming(),
    ensures
        state_after(state, event).claiming() || state_after(state, event) is Done,
        (event is ClaimFailed || event is Rejected) ==> state_after(state, event).claiming(),
        state_after(state, event) is Done && !(state is Done) ==> event is NothingToClaim
            || event is Accepted,
{
}

/// A swap waits for something exactly as long as it is not over, and what is
/// over stays so.
pub proof fn law_only_finished_swaps_wait_for_nothing(machine: SwapStateMachine, event: SwapEvent)
    ensures
        machine.waits_for() is Nothing <==> machine.state.terminal(),
        machine.state.terminal() ==> state_after(machine.state, event) == machine.state,
{
}

/// Failed tries are counted, never forgotten: the count only grows until the
/// swap is over, by one for each failure.
pub proof fn law_attempts_only_grow(state: SwapState, event: SwapEvent)
    requires
        state.claiming(),
        state.failed_attempts() < u32::MAX,
    ensures
        state_after(state, event).claiming() ==> state_after(state, event).failed_attempts()
            >= state.failed_attempts(),
        counts_a_failure(state, event) ==> {
            &&& state_after(state, event) is Tx2Failed
            &&& state_after(state, event).failed_attempts() == state.failed_attempts() + 1
        },
{
}

/// An event that a state waits for always leads to another state, so that a
/// swap never stands still on it.
pub proof fn law_a_step_is_a_change(state: SwapState, event: SwapEvent)
    requires
        match state {
            SwapState::Tx1Submitted { .. } => event is Accepted || event is Rejected,
            SwapState::Tx1Accepted { .. } => event is NothingToClaim || event is ClaimSubmitted
                || event is ClaimFailed,
            SwapState::Tx2Failed { .. } => event is PauseOver,
            SwapState::Tx2Submitted { .. } => event is Accepted || event is Rejected,
            _ => false,
        },
    ensures
        state_after(state, event) != state,
{
}

/// What the first transaction comes to decides the swap: accepted, the client sets
/// about claiming with no try behind it; refused, the swap is over and keeps the
/// guardians' words. Nothing else moves it.
pub proof fn law_the_first_transaction_decides(txid: TransactionId, event: SwapEvent)
    ensures
        ({
            let next = state_after(SwapState::Tx1Submitted { txid }, event);
            &&& next is Tx1Accepted <==> event is Accepted
            &&& next is Tx1Accepted ==> next.failed_attempts() == 0
            &&& next is Tx1Rejected <==> event is Rejected
            &&& event matches SwapEvent::Rejected(words) ==> next == SwapState::Tx1Rejected(words)
            &&& !(event is Accepted || event is Rejected) ==> next == (SwapState::Tx1Submitted {
                txid,
            })
        }),
{
}

/// A swap is done when its claim is accepted or when there is nothing to claim,
/// and at no other time.
pub proof fn law_a_swap_is_done_when_its_claim_is(state: SwapState, event: SwapEvent)
    ensures
        state_after(state, event) is Done <==> {
            ||| state is Done
            ||| state is Tx1Accepted && event is NothingToClaim
            ||| state is Tx2Submitted && event is Accepted
        },
{
}

/// While a balance is being claimed, the tries behind it are counted exactly: one
/// more after a failure, as many as before otherwise. A failure keeps its words, a
/// claim on its way its transaction, and a pause leads back to claiming.
pub proof fn law_a_claim_keeps_count(state: SwapState, event: SwapEvent)
    requires
        state.claiming(),
        state.failed_attempts() < u32::MAX,
    ensures
        ({
            let next = state_after(state, event);
            let failed = state is Tx1Accepted && event is ClaimFailed || state is Tx2Submitted
                && event is Rejected;
            &&& next is Done || next.failed_attempts() == state.failed_attempts() + (if failed {
                1int
            } else {
                0
            })
            &&& failed ==> {
                &&& next matches SwapState::Tx2Failed { error, .. } && (event
                    == SwapEvent::ClaimFailed(error) || event == SwapEvent::Rejected(error))
            }
            &&& state is Tx1Accepted ==> (event matches SwapEvent::ClaimSubmitted { txid: sent, .. }
                ==> (next matches SwapState::Tx2Submitted { txid, .. } && txid == sent))
            &&& state is Tx2Failed ==> (next is Tx1Accepted <==> event is PauseOver)
        }),
{
}

/// What is kept of a swap is what was claimed or why it was refused: a settled
/// amount exactly when a claim of it goes on its way, a refusal exactly when the
/// first transaction is refused, each with what the event said.
pub proof fn law_the_outcome_is_what_happened(state: SwapState, event: SwapEvent)
    ensures
        match outcome_after(state, event) {
            Some(SwapOutcome::Settled { amount_out }) => state is Tx1Accepted && (
            event matches SwapEvent::ClaimSubmitted { balance, .. } && balance == amount_out),
            Some(SwapOutcome::Tx1Rejected(words)) => state is Tx1Submitted && event
                == SwapEvent::Rejected(words),
            Some(_) => false,
            None => !(state is Tx1Accepted && event is ClaimSubmitted) && !(state is Tx1Submitted
                && event is Rejected),
        },
{
}

/// A swap waits for the transaction it sent, for its own balance in the unit it
/// bought, or for as long a pause as tries have failed.
pub proof fn law_a_swap_waits_for_its_own(machine: SwapStateMachine)
    ensures
        match machine.waits_for() {
            SwapAction::AwaitTransaction { txid } => {
                ||| machine.state == (SwapState::Tx1Submitted { txid })
                ||| machine.state matches SwapState::Tx2Submitted { txid: sent, .. } && sent == txid
            },
            SwapAction::Claim { pubkey, unit } => {
                &&& machine.state is Tx1Accepted
                &&& pubkey == machine.common.recipient_keypair.public()
                &&& unit == machine.common.unit_out
            },
            SwapAction::Pause { attempts } => machine.state is Tx2Failed && attempts
                == machine.state.failed_attempts(),
            SwapAction::Nothing => machine.state is Done || machine.state is Tx1Rejected,
        },
{
}

/// The first two pauses last a second, each later one as long as the two before it
/// together, until one of them passes a minute; all later ones last as long as
/// that one.
pub proof fn law_pauses_add_up_until_a_minute(n: nat)
    ensures
        n < 2 ==> backoff_seconds(n) == 1,
        2 <= n <= 10 ==> backoff_seconds(n) == backoff_seconds((n - 1) as nat) + backoff_seconds(
            (n - 2) as nat,
        ),
        n >= 10 ==> backoff_seconds(n) == 89,
{
    reveal_with_fuel(backoff_seconds, 12);
    lemma_backoff_bounded(n);
}

} // verus!
