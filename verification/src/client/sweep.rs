//! Claiming the balances that were found again, one after the other.

use vstd::prelude::*;
use vstd::string::*;

use crate::client::db::{ClientDb, RecoveredBalanceKey, RecoveredBalanceRecord};
use crate::client::derivation::{is_own, ModuleSecret, CHILD_SWAP};
use crate::client::module::AmmClientModule;
use crate::client::recovery::{
    is_claim, law_every_found_balance_is_marked, marked, own_balances, own_positions, BalanceScan,
    LpScan,
};
use crate::client::swap::ClientInput;
use crate::crypto::PublicKey;
use crate::display::{append_unit, unit_text};
use crate::endpoints::BalanceRecoveryEntry;
use crate::types::AmmInput;
use crate::units::{Amount, AmountUnit};

verus! {

/// What became of one balance.
#[derive(Debug, Clone, PartialEq, Eq)]
pub enum ClaimOutcome {
    Claimed,
    /// There was nothing left: somebody was quicker, most likely this client
    /// itself on another run.
    Gone,
    /// It could not be claimed, and stays marked.
    Failed(String),
}

/// How far the balance at hand is.
#[derive(Debug, Clone, Copy, PartialEq, Eq, Structural)]
pub enum SweepStage {
    /// What it holds now has to be read.
    Read,
    /// It holds this much, which has to be claimed.
    Claim(Amount),
}

/// What a sweep waits for.
#[derive(Debug, Clone, PartialEq, Eq)]
pub enum SweepAction {
    /// What `pubkey` holds of `unit` now.
    ReadBalance { pubkey: PublicKey, unit: AmountUnit },
    /// What becomes of a transaction with this input.
    Claim(ClientInput),
    /// Nothing: every balance has been looked at.
    Nothing,
}

/// What happens to a sweep.
#[derive(Debug, Clone, PartialEq, Eq)]
pub enum SweepEvent {
    /// What the balance holds now; nothing where it is gone.
    BalanceRead(Option<Amount>),
    /// The claim was accepted.
    Claimed,
    /// The balance could not be read or claimed.
    Failed(String),
}

/// A pass over every balance that was marked for claiming.
#[derive(Debug)]
pub struct ClaimSweep {
    /// The marks, as they were when the pass began.
    pub marks: Vec<(RecoveredBalanceKey, RecoveredBalanceRecord)>,
    /// What became of the balances that have been looked at, in the same order.
    pub outcomes: Vec<ClaimOutcome>,
    pub stage: SweepStage,
}

/// What an event makes of the balance at hand, where it settles it.
pub open spec fn outcome_of(stage: SweepStage, event: SweepEvent) -> Option<ClaimOutcome> {
    match (stage, event) {
        (SweepStage::Read, SweepEvent::BalanceRead(None)) => Some(ClaimOutcome::Gone),
        (SweepStage::Claim(_), SweepEvent::Claimed) => Some(ClaimOutcome::Claimed),
        (_, SweepEvent::Failed(error)) => Some(ClaimOutcome::Failed(error)),
        _ => None,
    }
}

/// How far the balance at hand is after an event.
pub open spec fn stage_after(stage: SweepStage, event: SweepEvent) -> SweepStage {
    match (stage, event) {
        (SweepStage::Read, SweepEvent::BalanceRead(Some(amount))) => SweepStage::Claim(amount),
        _ => if outcome_of(stage, event) is Some {
            SweepStage::Read
        } else {
            stage
        },
    }
}

/// Whether a sweep in this stage waits for such an event.
pub open spec fn awaits(stage: SweepStage, event: SweepEvent) -> bool {
    match event {
        SweepEvent::BalanceRead(_) => stage is Read,
        SweepEvent::Claimed => stage is Claim,
        SweepEvent::Failed(_) => true,
    }
}

/// How many balances were claimed.
pub open spec fn count_claimed(outcomes: Seq<ClaimOutcome>) -> int
    decreases outcomes.len(),
{
    if outcomes.len() == 0 {
        0
    } else {
        count_claimed(outcomes.drop_last()) + (if outcomes.last() is Claimed {
            1int
        } else {
            0
        })
    }
}

/// How many balances were gone.
pub open spec fn count_gone(outcomes: Seq<ClaimOutcome>) -> int
    decreases outcomes.len(),
{
    if outcomes.len() == 0 {
        0
    } else {
        count_gone(outcomes.drop_last()) + (if outcomes.last() is Gone {
            1int
        } else {
            0
        })
    }
}

/// The balances that could not be claimed and why, in order.
pub open spec fn failures(
    marks: Seq<(RecoveredBalanceKey, RecoveredBalanceRecord)>,
    outcomes: Seq<ClaimOutcome>,
) -> Seq<(RecoveredBalanceKey, String)>
    decreases outcomes.len(),
{
    if outcomes.len() == 0 {
        Seq::empty()
    } else {
        let front = failures(marks, outcomes.drop_last());
        match outcomes.last() {
            ClaimOutcome::Failed(error) => front.push((marks[outcomes.len() - 1].0, error)),
            _ => front,
        }
    }
}

/// Whether a line reports why a balance could not be claimed: the key, however it
/// is shown, then the unit, then the error.
pub open spec fn is_error_line(line: Seq<char>, key: RecoveredBalanceKey, error: Seq<char>) -> bool {
    exists|shown: Seq<char>| line == #[trigger] (shown + "/"@) + unit_text(key.unit) + ": "@ + error
}

fn error_line(key: &RecoveredBalanceKey, error: &String) -> (r: String)
    ensures
        is_error_line(r@, *key, error@),
{
    let mut line: String = match key.pubkey.shown() {
        Some(shown) => shown,
        None => String::new(),
    };
    let ghost shown = line@;
    line.append("/");
    append_unit(&mut line, key.unit);
    line.append(": ");
    line.append(error.as_str());
    assert(line@ == (shown + "/"@) + unit_text(key.unit) + ": "@ + error@);
    line
}

impl ClaimSweep {
    /// The balance at hand, if there is one left.
    pub open spec fn at_hand(self) -> Option<(RecoveredBalanceKey, RecoveredBalanceRecord)> {
        if self.outcomes@.len() < self.marks@.len() {
            Some(self.marks@[self.outcomes@.len() as int])
        } else {
            None
        }
    }

    /// Whether every balance has been looked at.
    pub open spec fn finished(self) -> bool {
        self.outcomes@.len() == self.marks@.len()
    }

    /// No mark occurs twice. A balance that was claimed or is gone is no longer
    /// marked; one that failed, or has not been looked at, still is.
    pub open spec fn wf(self, db: ClientDb) -> bool {
        &&& self.outcomes@.len() <= self.marks@.len()
        &&& forall|i: int, j: int|
            0 <= i < j < self.marks@.len() ==> (#[trigger] self.marks@[i]).0 != (
            #[trigger] self.marks@[j]).0
        &&& forall|i: int|
            0 <= i < self.marks@.len() ==> db.recovered.lookup((#[trigger] self.marks@[i]).0) == (
            if i >= self.outcomes@.len() || self.outcomes@[i] is Failed {
                Some(self.marks@[i].1)
            } else {
                None
            })
    }

    /// A pass over every mark there is.
    pub fn start(db: &ClientDb) -> (r: ClaimSweep)
        requires
            db.wf(),
        ensures
            r.marks@ == db.recovered.rows(),
            r.outcomes@.len() == 0,
            r.stage == SweepStage::Read,
            r.wf(*db),
    {
        let mut marks: Vec<(RecoveredBalanceKey, RecoveredBalanceRecord)> = Vec::new();
        let n: usize = db.recovered.len();
        let mut i: usize = 0;
        while i < n
            invariant
                n == db.recovered.rows().len(),
                i <= n,
                marks@ == db.recovered.rows().take(i as int),
            decreases n - i,
        {
            marks.push(db.recovered.row(i));
            i = i + 1;
            assert(marks@ =~= db.recovered.rows().take(i as int));
        }
        assert(db.recovered.rows().take(n as int) =~= db.recovered.rows());
        proof {
            assert forall|i: int| 0 <= i < marks@.len() implies db.recovered.lookup(
                (#[trigger] marks@[i]).0,
            ) == Some(marks@[i].1) by {
                db.recovered.lemma_row(i);
            }
            assert forall|i: int, j: int| 0 <= i < j < marks@.len() implies (
            #[trigger] marks@[i]).0 != (#[trigger] marks@[j]).0 by {
                db.recovered.lemma_rows_distinct(i, j);
            }
        }
        ClaimSweep { marks, outcomes: Vec::new(), stage: SweepStage::Read }
    }

    /// What the pass waits for: what the balance at hand holds now, and then a
    /// claim of that much with the balance's own tweak and unit.
    pub fn action(&self, module: &AmmClientModule) -> (r: SweepAction)
        ensures
            match self.at_hand() {
                None => r == SweepAction::Nothing,
                Some((key, record)) => match self.stage {
                    SweepStage::Read => r == (SweepAction::ReadBalance {
                        pubkey: key.pubkey,
                        unit: key.unit,
                    }),
                    SweepStage::Claim(amount) => r matches SweepAction::Claim(input) && is_claim(
                        input,
                        module.root_secret,
                        record.tweak,
                        key.unit,
                        amount,
                    ),
                },
            },
    {
        if self.outcomes.len() >= self.marks.len() {
            return SweepAction::Nothing;
        }
        let (key, record) = self.marks[self.outcomes.len()];
        match self.stage {
            SweepStage::Read => SweepAction::ReadBalance { pubkey: key.pubkey, unit: key.unit },
            SweepStage::Claim(amount) => SweepAction::Claim(
                module.claim_recovered_balance(record.tweak, key.unit, amount),
            ),
        }
    }

    /// Takes the pass one step further. A balance that was claimed or is gone is
    /// forgotten; one that failed is reported and stays marked. An event that the
    /// pass does not wait for changes nothing.
    pub fn advance(self, event: SweepEvent, module: &AmmClientModule, db: &mut ClientDb) -> (r:
        ClaimSweep)
        requires
            old(db).wf(),
            self.wf(*old(db)),
        ensures
            final(db).wf(),
            r.wf(*final(db)),
            r.marks == self.marks,
            final(db).positions == old(db).positions,
            final(db).outcomes == old(db).outcomes,
            match self.at_hand() {
                None => r == self && final(db).recovered == old(db).recovered,
                Some((key, _)) => {
                    &&& r.stage == stage_after(self.stage, event)
                    &&& match outcome_of(self.stage, event) {
                        None => r.outcomes == self.outcomes && final(db).recovered == old(
                            db
                        ).recovered,
                        Some(outcome) => {
                            &&& r.outcomes@ == self.outcomes@.push(outcome)
                            &&& if outcome is Failed {
                                final(db).recovered == old(db).recovered
                            } else {
                                final(db).recovered.view() == old(db).recovered.view().remove(key)
                            }
                        },
                    }
                },
            },
    {
        if self.outcomes.len() >= self.marks.len() {
            return self;
        }
        let (key, _) = self.marks[self.outcomes.len()];
        let outcome: ClaimOutcome = match (self.stage, event) {
            (SweepStage::Read, SweepEvent::BalanceRead(Some(amount))) => {
                return ClaimSweep {
                    marks: self.marks,
                    outcomes: self.outcomes,
                    stage: SweepStage::Claim(amount),
                };
            },
            (SweepStage::Read, SweepEvent::BalanceRead(None)) => ClaimOutcome::Gone,
            (SweepStage::Claim(_), SweepEvent::Claimed) => ClaimOutcome::Claimed,
            (_, SweepEvent::Failed(error)) => ClaimOutcome::Failed(error),
            _ => return self,
        };
        let keeps = matches!(outcome, ClaimOutcome::Failed(_));
        if !keeps {
            module.forget_recovered(db, key);
        }
        let ghost n = self.outcomes@.len() as int;
        let mut outcomes = self.outcomes;
        outcomes.push(outcome);
        let r = ClaimSweep { marks: self.marks, outcomes, stage: SweepStage::Read };
        proof {
            assert forall|i: int| 0 <= i < r.marks@.len() implies db.recovered.lookup(
                (#[trigger] r.marks@[i]).0,
            ) == (if i >= r.outcomes@.len() || r.outcomes@[i] is Failed {
                Some(r.marks@[i].1)
            } else {
                None
            }) by {
                let was = old(db).recovered.lookup(self.marks@[i].0);
                if i < n {
                    assert(r.outcomes@[i] == self.outcomes@[i]);
                    assert(self.marks@[i].0 != self.marks@[n].0);
                } else if n < i {
                    assert(self.marks@[n].0 != self.marks@[i].0);
                }
            }
        }
        r
    }
}

/// What a recovery came to.
#[derive(Debug, Clone, Default, PartialEq, Eq)]
pub struct AmmRecoverySummary {
    pub balances_found: usize,
    /// Less than were claimable, where somebody else claimed one meanwhile.
    pub balances_claimed: usize,
    pub positions_restored: usize,
    /// One line for each balance that could not be claimed.
    pub claim_errors: Vec<String>,
}

impl AmmClientModule {
    /// What a recovery came to, given both walks and the pass over the marks.
    pub fn recovery_summary(
        &self,
        balances: &BalanceScan,
        positions: &LpScan,
        sweep: &ClaimSweep,
    ) -> (r: AmmRecoverySummary)
        requires
            balances.wf(self.root_secret),
            positions.wf(self.root_secret),
            sweep.outcomes@.len() <= sweep.marks@.len(),
        ensures
            r.balances_found == own_balances(self.root_secret, balances.entries()).len(),
            r.balances_claimed == count_claimed(sweep.outcomes@),
            r.positions_restored == own_positions(self.root_secret, positions.entries()).len(),
            r.claim_errors@.len() == failures(sweep.marks@, sweep.outcomes@).len(),
            forall|i: int|
                0 <= i < r.claim_errors@.len() ==> {
                    let (key, error) = failures(sweep.marks@, sweep.outcomes@)[i];
                    is_error_line((#[trigger] r.claim_errors@[i])@, key, error@)
                },
    {
        let mut claimed: usize = 0;
        let mut claim_errors: Vec<String> = Vec::new();
        let mut i: usize = 0;
        assert(sweep.outcomes@.take(0) =~= Seq::<ClaimOutcome>::empty());
        while i < sweep.outcomes.len()
            invariant
                i <= sweep.outcomes@.len(),
                claimed == count_claimed(sweep.outcomes@.take(i as int)),
                claimed <= i,
                sweep.outcomes@.len() <= sweep.marks@.len(),
                claim_errors@.len() == failures(
                    sweep.marks@,
                    sweep.outcomes@.take(i as int),
                ).len(),
                forall|k: int|
                    0 <= k < claim_errors@.len() ==> {
                        let (key, error) = failures(
                            sweep.marks@,
                            sweep.outcomes@.take(i as int),
                        )[k];
                        is_error_line((#[trigger] claim_errors@[k])@, key, error@)
                    },
            decreases sweep.outcomes@.len() - i,
        {
            proof {
                let next = sweep.outcomes@.take(i as int + 1);
                assert(next.drop_last() =~= sweep.outcomes@.take(i as int));
                assert(next.last() == sweep.outcomes@[i as int]);
            }
            match &sweep.outcomes[i] {
                ClaimOutcome::Claimed => {
                    claimed = claimed + 1;
                },
                ClaimOutcome::Gone => {},
                ClaimOutcome::Failed(error) => {
                    claim_errors.push(error_line(&sweep.marks[i].0, error));
                },
            }
            i = i + 1;
        }
        assert(sweep.outcomes@.take(sweep.outcomes@.len() as int) =~= sweep.outcomes@);
        AmmRecoverySummary {
            balances_found: balances.own.len(),
            balances_claimed: claimed,
            positions_restored: positions.own.len(),
            claim_errors,
        }
    }
}

/// Every outcome is counted once.
proof fn lemma_outcomes_counted(
    marks: Seq<(RecoveredBalanceKey, RecoveredBalanceRecord)>,
    outcomes: Seq<ClaimOutcome>,
)
    ensures
        count_claimed(outcomes) >= 0,
        count_gone(outcomes) >= 0,
        count_claimed(outcomes) + count_gone(outcomes) + failures(marks, outcomes).len()
            == outcomes.len(),
    decreases outcomes.len(),
{
    if outcomes.len() > 0 {
        lemma_outcomes_counted(marks, outcomes.drop_last());
    }
}

/// Every failure is reported.
proof fn lemma_failure_reported(
    marks: Seq<(RecoveredBalanceKey, RecoveredBalanceRecord)>,
    outcomes: Seq<ClaimOutcome>,
    i: int,
)
    requires
        0 <= i < outcomes.len(),
    ensures
        outcomes[i] matches ClaimOutcome::Failed(error) ==> failures(marks, outcomes).contains(
            (marks[i].0, error),
        ),
    decreases outcomes.len(),
{
    let front = outcomes.drop_last();
    if let ClaimOutcome::Failed(error) = outcomes[i] {
        let reported = failures(marks, outcomes);
        let earlier = failures(marks, front);
        let row = (marks[i].0, error);
        if i < front.len() {
            assert(front[i] == outcomes[i]);
            lemma_failure_reported(marks, front, i);
            let k = choose|k: int| 0 <= k < earlier.len() && earlier[k] == row;
            assert(reported[k] == row);
        } else {
            assert(reported[earlier.len() as int] == row);
        }
    }
}

/// Whether mark `i` of a pass has been dealt with: its balance was claimed or was
/// gone and is forgotten, or it failed, is reported and stays marked.
pub open spec fn accounted(sweep: ClaimSweep, db: ClientDb, i: int) -> bool {
    &&& 0 <= i < sweep.outcomes@.len()
    &&& match sweep.outcomes@[i] {
        ClaimOutcome::Failed(error) => failures(sweep.marks@, sweep.outcomes@).contains(
            (sweep.marks@[i].0, error),
        ) && db.recovered.lookup(sweep.marks@[i].0) == Some(sweep.marks@[i].1),
        _ => db.recovered.lookup(sweep.marks@[i].0) is None,
    }
}

/// A finished pass accounts for every mark: each balance was claimed, was gone,
/// or is reported, and the three add up to all of them.
pub proof fn law_a_finished_sweep_accounts_for_every_mark(
    sweep: ClaimSweep,
    db: ClientDb,
    i: int,
)
    requires
        sweep.wf(db),
        sweep.finished(),
        0 <= i < sweep.marks@.len(),
    ensures
        accounted(sweep, db, i),
        count_claimed(sweep.outcomes@) + count_gone(sweep.outcomes@) + failures(
            sweep.marks@,
            sweep.outcomes@,
        ).len() == sweep.marks@.len(),
{
    lemma_outcomes_counted(sweep.marks@, sweep.outcomes@);
    lemma_failure_reported(sweep.marks@, sweep.outcomes@, i);
    let mark = sweep.marks@[i];
}

/// The claim of a mark whose tweak is the client's own names exactly the balance
/// that was marked.
pub proof fn law_a_mark_is_claimed_by_its_own_key(
    root: ModuleSecret,
    key: RecoveredBalanceKey,
    record: RecoveredBalanceRecord,
    amount: Amount,
    input: ClientInput,
)
    requires
        is_own(root, CHILD_SWAP, record.tweak, key.pubkey),
        is_claim(input, root, record.tweak, key.unit, amount),
    ensures
        input.input == (AmmInput::ClaimBalanceV0 { pubkey: key.pubkey, unit: key.unit }),
        input.amounts.of(key.unit) == amount.msats,
{
    if let AmmInput::ClaimBalanceV0 { pubkey, unit } = input.input {
        assert(pubkey.bytes =~= key.pubkey.bytes);
    }
}

/// How much of a pass is still to come.
pub open spec fn steps_left(marks: int, outcomes: int, stage: SweepStage) -> int {
    2 * (marks - outcomes) - (if stage is Claim {
        1int
    } else {
        0
    })
}

/// Every event that a pass waits for brings it nearer its end, so that it ends
/// after at most two for each mark.
pub proof fn law_a_sweep_ends(marks: int, outcomes: int, stage: SweepStage, event: SweepEvent)
    requires
        outcomes < marks,
        awaits(stage, event),
    ensures
        ({
            let after = if outcome_of(stage, event) is Some {
                outcomes + 1
            } else {
                outcomes
            };
            0 <= steps_left(marks, after, stage_after(stage, event)) < steps_left(
                marks,
                outcomes,
                stage,
            )
        }),
{
}

/// Every balance that a recovery finds is claimed, found gone, or reported: it is
/// marked with its own tweak, and a finished pass over the marks accounts for it.
/// `before` are the marks before the recovery, `db` what it left, and `after`
/// what the pass left.
pub proof fn law_every_found_balance_is_claimed_or_reported(
    before: Map<RecoveredBalanceKey, RecoveredBalanceRecord>,
    found: Seq<BalanceRecoveryEntry>,
    db: ClientDb,
    sweep: ClaimSweep,
    after: ClientDb,
    i: int,
)
    requires
        db.wf(),
        db.recovered.view() == marked(before, found),
        sweep.marks@ == db.recovered.rows(),
        sweep.wf(after),
        sweep.finished(),
        0 <= i < found.len(),
        forall|j: int|
            i < j < found.len() ==> (#[trigger] found[j]).pubkey != found[i].pubkey
                || found[j].unit != found[i].unit,
    ensures
        exists|j: int| #[trigger]
            accounted(sweep, after, j) && sweep.marks@[j] == (
                RecoveredBalanceKey { pubkey: found[i].pubkey, unit: found[i].unit },
                RecoveredBalanceRecord { tweak: found[i].tweak },
            ),
{
    law_every_found_balance_is_marked(before, found, i);
    let key = RecoveredBalanceKey { pubkey: found[i].pubkey, unit: found[i].unit };
    assert(db.recovered.lookup(key) is Some);
    let j = db.recovered.lemma_has_row(key);
    law_a_finished_sweep_accounts_for_every_mark(sweep, after, j);
}

/// The key that an entry is marked under.
pub open spec fn mark_of() -> spec_fn(BalanceRecoveryEntry) -> RecoveredBalanceKey {
    |e: BalanceRecoveryEntry| RecoveredBalanceKey { pubkey: e.pubkey, unit: e.unit }
}

/// Where nothing was marked before, only what was found is.
proof fn lemma_only_found_is_marked(found: Seq<BalanceRecoveryEntry>, key: RecoveredBalanceKey)
    ensures
        marked(Map::empty(), found).dom().contains(key) ==> found.map_values(mark_of()).contains(
            key,
        ),
    decreases found.len(),
{
    if found.len() > 0 && marked(Map::empty(), found).dom().contains(key) {
        let front = found.drop_last();
        let keys = found.map_values(mark_of());
        lemma_only_found_is_marked(front, key);
        if mark_of()(found.last()) == key {
            assert(keys[found.len() - 1] == key);
        } else {
            let earlier = front.map_values(mark_of());
            let i = choose|i: int| 0 <= i < earlier.len() && earlier[i] == key;
            assert(keys[i] == key);
        }
    }
}

/// Where a recovery finds no marks of earlier runs, the pass that follows it never
/// comes to more than was found: what was claimed, what was gone and what is
/// reported add up to no more than that.
pub proof fn law_a_first_sweep_never_exceeds_what_was_found(
    found: Seq<BalanceRecoveryEntry>,
    db: ClientDb,
    sweep: ClaimSweep,
)
    requires
        db.wf(),
        db.recovered.view() == marked(Map::empty(), found),
        sweep.marks@ == db.recovered.rows(),
        sweep.outcomes@.len() <= sweep.marks@.len(),
    ensures
        count_claimed(sweep.outcomes@) <= found.len(),
        failures(sweep.marks@, sweep.outcomes@).len() <= found.len(),
        count_claimed(sweep.outcomes@) + count_gone(sweep.outcomes@) + failures(
            sweep.marks@,
            sweep.outcomes@,
        ).len() <= found.len(),
{
    let rows = db.recovered.rows();
    let keys = Seq::new(rows.len(), |i: int| rows[i].0);
    let names = found.map_values(mark_of());
    assert(keys.no_duplicates()) by {
        assert forall|i: int, j: int| 0 <= i < keys.len() && 0 <= j < keys.len() && i
            != j implies keys[i] != keys[j] by {
            if i < j {
                db.recovered.lemma_rows_distinct(i, j);
            } else {
                db.recovered.lemma_rows_distinct(j, i);
            }
        }
    }
    assert forall|key: RecoveredBalanceKey| #[trigger]
        keys.to_set().contains(key) implies names.to_set().contains(key) by {
        let i = choose|i: int| 0 <= i < keys.len() && keys[i] == key;
        db.recovered.lemma_row(i);
        lemma_only_found_is_marked(found, key);
    }
    keys.unique_seq_to_set();
    names.lemma_cardinality_of_set();
    vstd::set_lib::lemma_len_subset(keys.to_set(), names.to_set());
    lemma_outcomes_counted(sweep.marks@, sweep.outcomes@);
}

/// A balance at hand is settled by what happens to it: claimed exactly when a
/// claim of it is accepted, gone exactly when nothing was left to read, failed
/// exactly when something went wrong, with the words of what did. It is claimed
/// for just what was read.
pub proof fn law_a_balance_is_settled_by_what_happens(stage: SweepStage, event: SweepEvent)
    ensures
        match outcome_of(stage, event) {
            Some(ClaimOutcome::Claimed) => stage is Claim && event is Claimed,
            Some(ClaimOutcome::Gone) => stage is Read && event == SweepEvent::BalanceRead(None),
            Some(ClaimOutcome::Failed(words)) => event == SweepEvent::Failed(words),
            None => {
                ||| stage is Read && event is Claimed
                ||| stage is Claim && event is BalanceRead
                ||| stage is Read && (event matches SweepEvent::BalanceRead(Some(_)))
            },
        },
        match stage_after(stage, event) {
            SweepStage::Claim(amount) => {
                ||| stage is Read && event == SweepEvent::BalanceRead(Some(amount))
                ||| stage == SweepStage::Claim(amount) && event is BalanceRead
            },
            SweepStage::Read => outcome_of(stage, event) is Some || (stage is Read
                && event is Claimed),
        },
{
}

/// The counts of a sweep are the numbers of balances that were claimed and that
/// were gone.
pub proof fn law_a_sweep_counts_its_balances(outcomes: Seq<ClaimOutcome>)
    ensures
        count_claimed(outcomes) == outcomes.filter(|o: ClaimOutcome| o is Claimed).len(),
        count_gone(outcomes) == outcomes.filter(|o: ClaimOutcome| o is Gone).len(),
    decreases outcomes.len(),
{
    reveal(Seq::filter);
    if outcomes.len() > 0 {
        law_a_sweep_counts_its_balances(outcomes.drop_last());
    }
}

} // verus!
