//! Finding everything again from the seed.
//!
//! The guardians hand out their tables a page at a time. The client looks at
//! every row, keeps the ones that are its own, remembers its positions and
//! claims its balances.

use vstd::prelude::*;

use crate::bytes::append_bytes;
use crate::client::db::{
    ClientDb, LpPositionKey, LpPositionRecord, RecoveredBalanceKey, RecoveredBalanceRecord,
};
use crate::client::derivation::{
    derive_keypair, is_own, matches_own_key, tweak_filter, ModuleSecret, CHILD_LP, CHILD_SWAP,
};
use crate::client::module::AmmClientModule;
use crate::client::swap::{build_claim_input, ClientInput};
use crate::endpoints::{
    BalanceRecoveryEntry, BalanceRecoveryResponse, LpRecoveryEntry, LpRecoveryResponse,
    RecoveryPageRequest,
};
use crate::server::recovery::cursor_view;
use crate::types::AmmInput;
use crate::units::{Amount, AmountUnit};

verus! {

/// The entries that are the secret's own, in order.
pub open spec fn own_balances(
    root: ModuleSecret,
    entries: Seq<BalanceRecoveryEntry>,
) -> Seq<BalanceRecoveryEntry>
    decreases entries.len(),
{
    if entries.len() == 0 {
        Seq::empty()
    } else {
        let front = own_balances(root, entries.drop_last());
        let entry = entries.last();
        if is_own(root, CHILD_SWAP, entry.tweak, entry.pubkey) {
            front.push(entry)
        } else {
            front
        }
    }
}

/// The entries that are the secret's own, in order.
pub open spec fn own_positions(root: ModuleSecret, entries: Seq<LpRecoveryEntry>) -> Seq<
    LpRecoveryEntry,
>
    decreases entries.len(),
{
    if entries.len() == 0 {
        Seq::empty()
    } else {
        let front = own_positions(root, entries.drop_last());
        let entry = entries.last();
        if is_own(root, CHILD_LP, entry.tweak, entry.pubkey) {
            front.push(entry)
        } else {
            front
        }
    }
}

/// Looking at two rows of entries is looking at one after the other.
proof fn lemma_own_balances_split(
    root: ModuleSecret,
    a: Seq<BalanceRecoveryEntry>,
    b: Seq<BalanceRecoveryEntry>,
)
    ensures
        own_balances(root, a + b) == own_balances(root, a) + own_balances(root, b),
    decreases b.len(),
{
    if b.len() == 0 {
        assert(a + b =~= a);
        assert(own_balances(root, a + b) =~= own_balances(root, a) + own_balances(root, b));
    } else {
        assert((a + b).drop_last() =~= a + b.drop_last());
        lemma_own_balances_split(root, a, b.drop_last());
        assert(own_balances(root, a + b) =~= own_balances(root, a) + own_balances(root, b));
    }
}

proof fn lemma_own_positions_split(
    root: ModuleSecret,
    a: Seq<LpRecoveryEntry>,
    b: Seq<LpRecoveryEntry>,
)
    ensures
        own_positions(root, a + b) == own_positions(root, a) + own_positions(root, b),
    decreases b.len(),
{
    if b.len() == 0 {
        assert(a + b =~= a);
        assert(own_positions(root, a + b) =~= own_positions(root, a) + own_positions(root, b));
    } else {
        assert((a + b).drop_last() =~= a + b.drop_last());
        lemma_own_positions_split(root, a, b.drop_last());
        assert(own_positions(root, a + b) =~= own_positions(root, a) + own_positions(root, b));
    }
}

/// How far a walk over a table has come.
#[derive(Debug, Clone, PartialEq, Eq)]
pub enum ScanProgress {
    /// The page behind this cursor comes next; none for the first page.
    Next(Option<Vec<u8>>),
    /// The last page has been seen.
    Complete,
}

/// A walk over every stored balance.
pub struct BalanceScan {
    pub progress: ScanProgress,
    /// What was found to be the client's own.
    pub own: Vec<BalanceRecoveryEntry>,
    pub filter: [u8; 32],
    /// Every entry seen so far.
    pub seen: Ghost<Seq<BalanceRecoveryEntry>>,
}

/// A walk over every stored position.
pub struct LpScan {
    pub progress: ScanProgress,
    /// What was found to be the client's own.
    pub own: Vec<LpRecoveryEntry>,
    pub filter: [u8; 32],
    /// Every entry seen so far.
    pub seen: Ghost<Seq<LpRecoveryEntry>>,
}

/// The request for the page that comes next: the cursor as it was handed out,
/// and as many rows as the guardians give.
pub open spec fn asks_for(request: Option<RecoveryPageRequest>, progress: ScanProgress) -> bool {
    match progress {
        ScanProgress::Next(cursor) => request matches Some(r) && cursor_view(r.cursor)
            == cursor_view(cursor) && r.limit is None,
        ScanProgress::Complete => request is None,
    }
}

fn next_request(progress: &ScanProgress) -> (r: Option<RecoveryPageRequest>)
    ensures
        asks_for(r, *progress),
{
    match progress {
        ScanProgress::Next(cursor) => {
            let copy: Option<Vec<u8>> = match cursor {
                Some(bytes) => {
                    let mut out: Vec<u8> = Vec::new();
                    append_bytes(&mut out, bytes.as_slice());
                    assert(out@ =~= bytes@);
                    Some(out)
                },
                None => None,
            };
            Some(RecoveryPageRequest { cursor: copy, limit: None })
        },
        ScanProgress::Complete => None,
    }
}

/// Where a walk stands once a page has been seen.
pub open spec fn progress_after(next_cursor: Option<Vec<u8>>) -> ScanProgress {
    match next_cursor {
        Some(cursor) => ScanProgress::Next(Some(cursor)),
        None => ScanProgress::Complete,
    }
}

fn progress_from(next_cursor: Option<Vec<u8>>) -> (r: ScanProgress)
    ensures
        r == progress_after(next_cursor),
{
    match next_cursor {
        Some(cursor) => ScanProgress::Next(Some(cursor)),
        None => ScanProgress::Complete,
    }
}

impl BalanceScan {
    /// Every entry seen so far, in order.
    pub open spec fn entries(self) -> Seq<BalanceRecoveryEntry> {
        self.seen@
    }

    /// What was kept is what is the secret's own among what was seen.
    pub open spec fn wf(self, root: ModuleSecret) -> bool {
        &&& self.filter@ == root.filter()
        &&& self.own@ == own_balances(root, self.seen@)
    }

    /// A walk that has not started.
    pub fn start(root: &ModuleSecret) -> (r: BalanceScan)
        ensures
            r.wf(*root),
            r.entries() == Seq::<BalanceRecoveryEntry>::empty(),
            r.progress == ScanProgress::Next(None),
    {
        let r = BalanceScan {
            progress: ScanProgress::Next(None),
            own: Vec::new(),
            filter: tweak_filter(root),
            seen: Ghost(Seq::empty()),
        };
        assert(r.own@ =~= own_balances(*root, r.seen@));
        r
    }

    /// The request for the page that comes next; none behind the last page.
    pub fn request(&self) -> (r: Option<RecoveryPageRequest>)
        ensures
            asks_for(r, self.progress),
    {
        next_request(&self.progress)
    }

    /// Looks at every entry of a page, and goes on where the page says.
    pub fn accept(self, root: &ModuleSecret, page: BalanceRecoveryResponse) -> (r: BalanceScan)
        requires
            self.wf(*root),
        ensures
            r.wf(*root),
            r.entries() == self.entries() + page.entries@,
            r.own@ == self.own@ + own_balances(*root, page.entries@),
            r.progress == progress_after(page.next_cursor),
    {
        let mut own = self.own;
        let filter = self.filter;
        let ghost before = own@;
        let mut i: usize = 0;
        assert(page.entries@.take(0) =~= Seq::<BalanceRecoveryEntry>::empty());
        assert(own@ =~= before + own_balances(*root, page.entries@.take(0)));
        while i < page.entries.len()
            invariant
                i <= page.entries@.len(),
                filter@ == root.filter(),
                own@ == before + own_balances(*root, page.entries@.take(i as int)),
            decreases page.entries@.len() - i,
        {
            let entry = page.entries[i];
            proof {
                let next = page.entries@.take(i as int + 1);
                assert(next.drop_last() =~= page.entries@.take(i as int));
                assert(next.last() == entry);
            }
            if matches_own_key(root, filter, CHILD_SWAP, entry.tweak, entry.pubkey) {
                own.push(entry);
            }
            i = i + 1;
            assert(own@ =~= before + own_balances(*root, page.entries@.take(i as int)));
        }
        proof {
            assert(page.entries@.take(page.entries@.len() as int) =~= page.entries@);
            lemma_own_balances_split(*root, self.seen@, page.entries@);
        }
        BalanceScan {
            progress: progress_from(page.next_cursor),
            own,
            filter,
            seen: Ghost(self.seen@ + page.entries@),
        }
    }
}

impl LpScan {
    /// Every entry seen so far, in order.
    pub open spec fn entries(self) -> Seq<LpRecoveryEntry> {
        self.seen@
    }

    /// What was kept is what is the secret's own among what was seen.
    pub open spec fn wf(self, root: ModuleSecret) -> bool {
        &&& self.filter@ == root.filter()
        &&& self.own@ == own_positions(root, self.seen@)
    }

    /// A walk that has not started.
    pub fn start(root: &ModuleSecret) -> (r: LpScan)
        ensures
            r.wf(*root),
            r.entries() == Seq::<LpRecoveryEntry>::empty(),
            r.progress == ScanProgress::Next(None),
    {
        let r = LpScan {
            progress: ScanProgress::Next(None),
            own: Vec::new(),
            filter: tweak_filter(root),
            seen: Ghost(Seq::empty()),
        };
        assert(r.own@ =~= own_positions(*root, r.seen@));
        r
    }

    /// The request for the page that comes next; none behind the last page.
    pub fn request(&self) -> (r: Option<RecoveryPageRequest>)
        ensures
            asks_for(r, self.progress),
    {
        next_request(&self.progress)
    }

    /// Looks at every entry of a page, and goes on where the page says.
    pub fn accept(self, root: &ModuleSecret, page: LpRecoveryResponse) -> (r: LpScan)
        requires
            self.wf(*root),
        ensures
            r.wf(*root),
            r.entries() == self.entries() + page.entries@,
            r.own@ == self.own@ + own_positions(*root, page.entries@),
            r.progress == progress_after(page.next_cursor),
    {
        let mut own = self.own;
        let filter = self.filter;
        let ghost before = own@;
        let mut i: usize = 0;
        assert(page.entries@.take(0) =~= Seq::<LpRecoveryEntry>::empty());
        assert(own@ =~= before + own_positions(*root, page.entries@.take(0)));
        while i < page.entries.len()
            invariant
                i <= page.entries@.len(),
                filter@ == root.filter(),
                own@ == before + own_positions(*root, page.entries@.take(i as int)),
            decreases page.entries@.len() - i,
        {
            let entry = page.entries[i];
            proof {
                let next = page.entries@.take(i as int + 1);
                assert(next.drop_last() =~= page.entries@.take(i as int));
                assert(next.last() == entry);
            }
            if matches_own_key(root, filter, CHILD_LP, entry.tweak, entry.pubkey) {
                own.push(entry);
            }
            i = i + 1;
            assert(own@ =~= before + own_positions(*root, page.entries@.take(i as int)));
        }
        proof {
            assert(page.entries@.take(page.entries@.len() as int) =~= page.entries@);
            lemma_own_positions_split(*root, self.seen@, page.entries@);
        }
        LpScan {
            progress: progress_from(page.next_cursor),
            own,
            filter,
            seen: Ghost(self.seen@ + page.entries@),
        }
    }
}

/// The positions that are remembered once `entries` have been restored: the last
/// entry of a key counts.
pub open spec fn restored(
    positions: Map<LpPositionKey, LpPositionRecord>,
    entries: Seq<LpRecoveryEntry>,
) -> Map<LpPositionKey, LpPositionRecord>
    decreases entries.len(),
{
    if entries.len() == 0 {
        positions
    } else {
        let e = entries.last();
        restored(positions, entries.drop_last()).insert(
            LpPositionKey { pool: e.pool, owner_pk: e.pubkey },
            LpPositionRecord { tweak: e.tweak, shares: e.shares },
        )
    }
}

/// The balances that are marked for claiming once `entries` have been found.
pub open spec fn marked(
    recovered: Map<RecoveredBalanceKey, RecoveredBalanceRecord>,
    entries: Seq<BalanceRecoveryEntry>,
) -> Map<RecoveredBalanceKey, RecoveredBalanceRecord>
    decreases entries.len(),
{
    if entries.len() == 0 {
        recovered
    } else {
        let e = entries.last();
        marked(recovered, entries.drop_last()).insert(
            RecoveredBalanceKey { pubkey: e.pubkey, unit: e.unit },
            RecoveredBalanceRecord { tweak: e.tweak },
        )
    }
}

/// Whether an input claims `amount` of `unit` with the key of a tweak, and is
/// signed for by that key alone.
pub open spec fn is_claim(
    input: ClientInput,
    root: ModuleSecret,
    tweak: [u8; 16],
    unit: AmountUnit,
    amount: Amount,
) -> bool {
    &&& input.input matches AmmInput::ClaimBalanceV0 { pubkey, unit: u } && u == unit && Some(
        pubkey.bytes@,
    ) == root.public_key(CHILD_SWAP, tweak)
    &&& input.keys@.len() == 1
    &&& input.keys@[0].secret_bytes() == root.secret_key(CHILD_SWAP, tweak)
    &&& input.amounts.wf()
    &&& forall|u: AmountUnit| #[trigger]
        input.amounts.of(u) == (if u == unit {
            amount.msats as int
        } else {
            0
        })
}

impl AmmClientModule {
    /// Remembers what both walks found, once they are through: positions as they
    /// are, balances as still to be claimed.
    pub fn recover(&self, db: &mut ClientDb, balance_scan: &BalanceScan, lp_scan: &LpScan)
        requires
            old(db).wf(),
            balance_scan.wf(self.root_secret),
            lp_scan.wf(self.root_secret),
            balance_scan.progress is Complete,
            lp_scan.progress is Complete,
        ensures
            final(db).wf(),
            final(db).positions.view() == restored(
                old(db).positions.view(),
                own_positions(self.root_secret, lp_scan.entries()),
            ),
            final(db).recovered.view() == marked(
                old(db).recovered.view(),
                own_balances(self.root_secret, balance_scan.entries()),
            ),
            final(db).outcomes == old(db).outcomes,
    {
        let balances = &balance_scan.own;
        let positions = &lp_scan.own;
        let mut i: usize = 0;
        while i < positions.len()
            invariant
                i <= positions@.len(),
                db.wf(),
                db.positions.view() == restored(
                    old(db).positions.view(),
                    positions@.take(i as int),
                ),
                db.recovered == old(db).recovered,
                db.outcomes == old(db).outcomes,
            decreases positions@.len() - i,
        {
            let e = positions[i];
            proof {
                let next = positions@.take(i as int + 1);
                assert(next.drop_last() =~= positions@.take(i as int));
                assert(next.last() == e);
            }
            db.positions.insert(
                LpPositionKey { pool: e.pool, owner_pk: e.pubkey },
                LpPositionRecord { tweak: e.tweak, shares: e.shares },
            );
            i = i + 1;
        }
        assert(positions@.take(positions@.len() as int) =~= positions@);
        i = 0;
        while i < balances.len()
            invariant
                i <= balances@.len(),
                db.wf(),
                db.positions.view() == restored(old(db).positions.view(), positions@),
                db.recovered.view() == marked(
                    old(db).recovered.view(),
                    balances@.take(i as int),
                ),
                db.outcomes == old(db).outcomes,
            decreases balances@.len() - i,
        {
            let e = balances[i];
            proof {
                let next = balances@.take(i as int + 1);
                assert(next.drop_last() =~= balances@.take(i as int));
                assert(next.last() == e);
            }
            db.recovered.insert(
                RecoveredBalanceKey { pubkey: e.pubkey, unit: e.unit },
                RecoveredBalanceRecord { tweak: e.tweak },
            );
            i = i + 1;
        }
        assert(balances@.take(balances@.len() as int) =~= balances@);
    }

    /// The input that claims a balance which was found again, given what it
    /// holds now.
    pub fn claim_recovered_balance(
        &self,
        tweak: [u8; 16],
        unit: AmountUnit,
        amount: Amount,
    ) -> (r: ClientInput)
        ensures
            is_claim(r, self.root_secret, tweak, unit, amount),
    {
        let keypair = derive_keypair(&self.root_secret, CHILD_SWAP, tweak);
        build_claim_input(keypair, unit, amount)
    }

    /// Forgets a balance that has been claimed or is gone.
    pub fn forget_recovered(&self, db: &mut ClientDb, key: RecoveredBalanceKey)
        requires
            old(db).wf(),
        ensures
            final(db).wf(),
            final(db).recovered.view() == old(db).recovered.view().remove(key),
            final(db).positions == old(db).positions,
            final(db).outcomes == old(db).outcomes,
    {
        db.recovered.remove(&key);
    }
}

/// Every position that was found is remembered, with the tweak and the shares of
/// the last entry that names it.
pub proof fn law_every_found_position_is_remembered(
    positions: Map<LpPositionKey, LpPositionRecord>,
    entries: Seq<LpRecoveryEntry>,
    i: int,
)
    requires
        0 <= i < entries.len(),
        forall|j: int|
            i < j < entries.len() ==> (#[trigger] entries[j]).pool != entries[i].pool
                || entries[j].pubkey != entries[i].pubkey,
    ensures
        ({
            let key = LpPositionKey { pool: entries[i].pool, owner_pk: entries[i].pubkey };
            let after = restored(positions, entries);
            &&& after.dom().contains(key)
            &&& after[key] == (LpPositionRecord {
                tweak: entries[i].tweak,
                shares: entries[i].shares,
            })
        }),
    decreases entries.len(),
{
    if i < entries.len() - 1 {
        let front = entries.drop_last();
        assert forall|j: int| i < j < front.len() implies (#[trigger] front[j]).pool
            != front[i].pool || front[j].pubkey != front[i].pubkey by {
            assert(front[j] == entries[j]);
        }
        law_every_found_position_is_remembered(positions, front, i);
        assert(entries[entries.len() - 1].pool != entries[i].pool || entries[entries.len()
            - 1].pubkey != entries[i].pubkey);
    }
}

/// Every balance that was found is marked for claiming, with the tweak of the
/// last entry that names it.
pub proof fn law_every_found_balance_is_marked(
    recovered: Map<RecoveredBalanceKey, RecoveredBalanceRecord>,
    entries: Seq<BalanceRecoveryEntry>,
    i: int,
)
    requires
        0 <= i < entries.len(),
        forall|j: int|
            i < j < entries.len() ==> (#[trigger] entries[j]).pubkey != entries[i].pubkey
                || entries[j].unit != entries[i].unit,
    ensures
        ({
            let key = RecoveredBalanceKey { pubkey: entries[i].pubkey, unit: entries[i].unit };
            let after = marked(recovered, entries);
            &&& after.dom().contains(key)
            &&& after[key] == (RecoveredBalanceRecord { tweak: entries[i].tweak })
        }),
    decreases entries.len(),
{
    if i < entries.len() - 1 {
        let front = entries.drop_last();
        assert forall|j: int| i < j < front.len() implies (#[trigger] front[j]).pubkey
            != front[i].pubkey || front[j].unit != front[i].unit by {
            assert(front[j] == entries[j]);
        }
        law_every_found_balance_is_marked(recovered, front, i);
        assert(entries[entries.len() - 1].pubkey != entries[i].pubkey || entries[entries.len()
            - 1].unit != entries[i].unit);
    }
}

/// Every balance that a walk keeps is the secret's own, and none of those it saw
/// is left out.
pub proof fn law_a_walk_keeps_exactly_its_own_balances(
    root: ModuleSecret,
    entries: Seq<BalanceRecoveryEntry>,
    entry: BalanceRecoveryEntry,
)
    ensures
        own_balances(root, entries).contains(entry) <==> entries.contains(entry) && is_own(
            root,
            CHILD_SWAP,
            entry.tweak,
            entry.pubkey,
        ),
    decreases entries.len(),
{
    if entries.len() > 0 {
        let front = entries.drop_last();
        let last = entries.last();
        law_a_walk_keeps_exactly_its_own_balances(root, front, entry);
        let own = own_balances(root, entries);
        let own_front = own_balances(root, front);
        assert(entries =~= front.push(last));
        if own.contains(entry) {
            let i = choose|i: int| 0 <= i < own.len() && own[i] == entry;
            if i < own_front.len() {
                assert(own_front[i] == entry);
                let j = choose|j: int| 0 <= j < front.len() && front[j] == entry;
                assert(entries[j] == entry);
            } else {
                assert(entries[entries.len() - 1] == entry);
            }
        }
        if entries.contains(entry) && is_own(root, CHILD_SWAP, entry.tweak, entry.pubkey) {
            let j = choose|j: int| 0 <= j < entries.len() && entries[j] == entry;
            if j < front.len() {
                assert(front[j] == entry);
                let i = choose|i: int| 0 <= i < own_front.len() && own_front[i] == entry;
                assert(own[i] == entry);
            } else {
                assert(own[own.len() - 1] == entry);
            }
        }
    }
}

/// Every position that a walk keeps is the secret's own, and none of those it saw
/// is left out.
pub proof fn law_a_walk_keeps_exactly_its_own_positions(
    root: ModuleSecret,
    entries: Seq<LpRecoveryEntry>,
    entry: LpRecoveryEntry,
)
    ensures
        own_positions(root, entries).contains(entry) <==> entries.contains(entry) && is_own(
            root,
            CHILD_LP,
            entry.tweak,
            entry.pubkey,
        ),
    decreases entries.len(),
{
    if entries.len() > 0 {
        let front = entries.drop_last();
        let last = entries.last();
        law_a_walk_keeps_exactly_its_own_positions(root, front, entry);
        let own = own_positions(root, entries);
        let own_front = own_positions(root, front);
        assert(entries =~= front.push(last));
        if own.contains(entry) {
            let i = choose|i: int| 0 <= i < own.len() && own[i] == entry;
            if i < own_front.len() {
                assert(own_front[i] == entry);
                let j = choose|j: int| 0 <= j < front.len() && front[j] == entry;
                assert(entries[j] == entry);
            } else {
                assert(entries[entries.len() - 1] == entry);
            }
        }
        if entries.contains(entry) && is_own(root, CHILD_LP, entry.tweak, entry.pubkey) {
            let j = choose|j: int| 0 <= j < entries.len() && entries[j] == entry;
            if j < front.len() {
                assert(front[j] == entry);
                let i = choose|i: int| 0 <= i < own_front.len() && own_front[i] == entry;
                assert(own[i] == entry);
            } else {
                assert(own[own.len() - 1] == entry);
            }
        }
    }
}

/// A walk goes on for as long as pages end on a cursor: it asks for the page
/// behind just that cursor, as many rows as there may be, and stops at the page
/// without one.
pub proof fn law_a_walk_goes_on_behind_its_cursor(
    next_cursor: Option<Vec<u8>>,
    request: Option<RecoveryPageRequest>,
)
    requires
        asks_for(request, progress_after(next_cursor)),
    ensures
        match (next_cursor, request) {
            (Some(cursor), Some(asked)) => asked.limit is None && (
            asked.cursor matches Some(from) && from@ == cursor@),
            (None, None) => true,
            _ => false,
        },
{
}

} // verus!
