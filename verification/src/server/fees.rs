//! The fee in force: the guardians' votes, aggregated.

use vstd::prelude::*;

use crate::config::{configured_fee, AmmConfigConsensus};
use crate::pool_id::PoolId;
use crate::server::db::{FeeVoteKey, PeerId};
use crate::table::Table;

verus! {

/// The number of guardians that have to agree: all but those that may be
/// faulty.
pub open spec fn threshold_of(num_peers: int) -> int {
    num_peers - max_evil_of(num_peers)
}

/// The number of guardians that may be faulty.
pub open spec fn max_evil_of(num_peers: int) -> int {
    (num_peers - 1) / 3
}

/// `fedimint_core::NumPeers::threshold`: the number of guardians minus a third
/// of the others, rounded down.
#[verifier::external_body]
fn threshold(num_peers: usize) -> (r: usize)
    requires
        num_peers >= 1,
    ensures
        r == threshold_of(num_peers as int),
{
    fedimint_core::NumPeers::from(num_peers).threshold()
}

/// The number of votes below `x`.
pub open spec fn count_below(votes: Seq<u16>, x: int) -> int
    decreases votes.len(),
{
    if votes.len() == 0 {
        0
    } else {
        count_below(votes.drop_last(), x) + (if votes.last() < x {
            1int
        } else {
            0
        })
    }
}

/// `x` is the vote that stands at place `n`, counting from zero, once the votes
/// are put in ascending order.
pub open spec fn is_nth_smallest(votes: Seq<u16>, n: int, x: u16) -> bool {
    &&& votes.contains(x)
    &&& count_below(votes, x as int) <= n
    &&& n < count_below(votes, x + 1)
}

/// The vote at place `n` of the votes in ascending order.
pub open spec fn nth_smallest_of(votes: Seq<u16>, n: int) -> u16 {
    choose|x: u16| is_nth_smallest(votes, n, x)
}

/// At most all votes are below `x`, and more are below a larger `x`.
pub proof fn lemma_count_below_grows(votes: Seq<u16>, x: int, y: int)
    requires
        x <= y,
    ensures
        0 <= count_below(votes, x) <= count_below(votes, y) <= votes.len(),
    decreases votes.len(),
{
    if votes.len() > 0 {
        lemma_count_below_grows(votes.drop_last(), x, y);
    }
}

/// A vote that counts below `x + 1` but not below `x` is `x`.
proof fn lemma_count_below_step(votes: Seq<u16>, x: u16)
    requires
        count_below(votes, x as int) < count_below(votes, x + 1),
    ensures
        votes.contains(x),
    decreases votes.len(),
{
    if votes.len() > 0 {
        if votes.last() == x {
            assert(votes[votes.len() - 1] == x);
        } else {
            lemma_count_below_step(votes.drop_last(), x);
            let i = choose|i: int| 0 <= i < votes.drop_last().len() && votes.drop_last()[i] == x;
            assert(votes[i] == x);
        }
    }
}

/// Counting in two parts.
proof fn lemma_count_below_split(a: Seq<u16>, b: Seq<u16>, x: int)
    ensures
        count_below(a + b, x) == count_below(a, x) + count_below(b, x),
    decreases b.len(),
{
    if b.len() == 0 {
        assert(a + b =~= a);
    } else {
        assert((a + b).drop_last() =~= a + b.drop_last());
        lemma_count_below_split(a, b.drop_last(), x);
    }
}

/// One more vote, wherever it is put, is one more count.
proof fn lemma_count_below_insert(votes: Seq<u16>, at: int, v: u16, x: int)
    requires
        0 <= at <= votes.len(),
    ensures
        count_below(votes.insert(at, v), x) == count_below(votes, x) + (if v < x {
            1int
        } else {
            0
        }),
{
    let front = votes.take(at);
    let back = votes.skip(at);
    assert(votes.insert(at, v) =~= front + seq![v] + back);
    assert(votes =~= front + back);
    lemma_count_below_split(front + seq![v], back, x);
    lemma_count_below_split(front, seq![v], x);
    lemma_count_below_split(front, back, x);
    assert(seq![v].drop_last() =~= Seq::<u16>::empty());
    assert(count_below(seq![v].drop_last(), x) == 0);
}

/// Votes that are all below `x` all count.
proof fn lemma_count_below_all(votes: Seq<u16>, x: int)
    requires
        forall|i: int| 0 <= i < votes.len() ==> #[trigger] votes[i] < x,
    ensures
        count_below(votes, x) == votes.len(),
    decreases votes.len(),
{
    if votes.len() > 0 {
        assert forall|i: int| 0 <= i < votes.drop_last().len() implies #[trigger] votes.drop_last()[i]
            < x by {
            assert(votes.drop_last()[i] == votes[i]);
        }
        lemma_count_below_all(votes.drop_last(), x);
    }
}

/// Votes of which none is below `x` do not count.
proof fn lemma_count_below_none(votes: Seq<u16>, x: int)
    requires
        forall|i: int| 0 <= i < votes.len() ==> #[trigger] votes[i] >= x,
    ensures
        count_below(votes, x) == 0,
    decreases votes.len(),
{
    if votes.len() > 0 {
        assert forall|i: int| 0 <= i < votes.drop_last().len() implies #[trigger] votes.drop_last()[i]
            >= x by {
            assert(votes.drop_last()[i] == votes[i]);
        }
        lemma_count_below_none(votes.drop_last(), x);
    }
}

/// There is only one vote at each place.
pub proof fn lemma_nth_smallest_unique(votes: Seq<u16>, n: int, x: u16, y: u16)
    requires
        is_nth_smallest(votes, n, x),
        is_nth_smallest(votes, n, y),
    ensures
        x == y,
{
    if x < y {
        lemma_count_below_grows(votes, x + 1, y as int);
    } else if y < x {
        lemma_count_below_grows(votes, y + 1, x as int);
    }
}

/// The vote at place `n` of the votes in ascending order.
pub fn nth_smallest(votes: &Vec<u16>, n: usize) -> (r: u16)
    requires
        n < votes@.len(),
    ensures
        is_nth_smallest(votes@, n as int, r),
        r == nth_smallest_of(votes@, n as int),
{
    let mut sorted: Vec<u16> = Vec::new();
    let mut i: usize = 0;
    while i < votes.len()
        invariant
            i <= votes@.len(),
            sorted@.len() == i,
            forall|a: int, b: int| 0 <= a <= b < sorted@.len() ==> sorted@[a] <= sorted@[b],
            forall|x: int| #[trigger]
                count_below(sorted@, x) == count_below(votes@.take(i as int), x),
        decreases votes@.len() - i,
    {
        let v: u16 = votes[i];
        let mut at: usize = 0;
        while at < sorted.len() && sorted[at] < v
            invariant
                at <= sorted@.len(),
                forall|a: int| 0 <= a < at ==> #[trigger] sorted@[a] < v,
            decreases sorted@.len() - at,
        {
            at = at + 1;
        }
        let ghost before = sorted@;
        sorted.insert(at, v);
        proof {
            assert(votes@.take(i as int + 1).drop_last() =~= votes@.take(i as int));
            assert forall|x: int| #[trigger]
                count_below(sorted@, x) == count_below(votes@.take(i as int + 1), x) by {
                lemma_count_below_insert(before, at as int, v, x);
                assert(count_below(before, x) == count_below(votes@.take(i as int), x));
            }
            assert forall|a: int, b: int| 0 <= a <= b < sorted@.len() implies sorted@[a]
                <= sorted@[b] by {
                let a2 = if a < at { a } else { a - 1 };
                let b2 = if b < at { b } else { b - 1 };
                if a != at {
                    assert(sorted@[a] == before[a2]);
                }
                if b != at {
                    assert(sorted@[b] == before[b2]);
                }
                if a == at && b > at {
                    assert(before[at as int] <= before[b2]);
                }
            }
        }
        i = i + 1;
    }
    let r: u16 = sorted[n];
    proof {
        assert(votes@.take(votes@.len() as int) =~= votes@);
        let front = sorted@.take(n as int);
        let back = sorted@.skip(n as int);
        assert(sorted@ =~= front + back);
        lemma_count_below_split(front, back, r as int);
        lemma_count_below_grows(front, r as int, r as int);
        assert forall|k: int| 0 <= k < back.len() implies #[trigger] back[k] >= r by {
            assert(back[k] == sorted@[n + k]);
        }
        lemma_count_below_none(back, r as int);
        let front2 = sorted@.take(n + 1);
        let back2 = sorted@.skip(n + 1);
        assert(sorted@ =~= front2 + back2);
        lemma_count_below_split(front2, back2, r + 1);
        lemma_count_below_grows(back2, r + 1, r + 1);
        assert forall|k: int| 0 <= k < front2.len() implies #[trigger] front2[k] < r + 1 by {
            assert(front2[k] == sorted@[k]);
        }
        lemma_count_below_all(front2, r + 1);
        assert(count_below(sorted@, r as int) == count_below(votes@, r as int));
        assert(count_below(sorted@, r + 1) == count_below(votes@, r + 1));
        lemma_count_below_step(votes@, r);
        lemma_nth_smallest_unique(votes@, n as int, r, nth_smallest_of(votes@, n as int));
    }
    r
}

/// The votes for one pool among the rows of the vote table, in key order.
pub open spec fn votes_in(rows: Seq<(FeeVoteKey, u16)>, pool: PoolId) -> Seq<(PeerId, u16)>
    decreases rows.len(),
{
    if rows.len() == 0 {
        Seq::empty()
    } else {
        let front = votes_in(rows.drop_last(), pool);
        if rows.last().0.pool == pool {
            front.push((rows.last().0.peer, rows.last().1))
        } else {
            front
        }
    }
}

/// The fees of a row of votes.
pub open spec fn fees_of(votes: Seq<(PeerId, u16)>) -> Seq<u16> {
    votes.map_values(|v: (PeerId, u16)| v.1)
}

/// The votes for one pool, by guardian.
pub fn votes_for(table: &Table<FeeVoteKey, u16>, pool: PoolId) -> (r: Vec<(PeerId, u16)>)
    ensures
        r@ == votes_in(table.rows(), pool),
{
    let mut votes: Vec<(PeerId, u16)> = Vec::new();
    let n: usize = table.len();
    let mut i: usize = 0;
    while i < n
        invariant
            n == table.rows().len(),
            i <= n,
            votes@ == votes_in(table.rows().take(i as int), pool),
        decreases n - i,
    {
        let (key, fee) = table.row(i);
        proof {
            let next = table.rows().take(i as int + 1);
            assert(next.drop_last() =~= table.rows().take(i as int));
            assert(next.last() == table.rows()[i as int]);
        }
        if key.pool == pool {
            votes.push((key.peer, fee));
        }
        i = i + 1;
    }
    assert(table.rows().take(n as int) =~= table.rows());
    votes
}

/// The fee that the votes for a pool come to: the vote at the threshold's place
/// once enough guardians have voted, the configured fee before that, and in the
/// band either way.
pub open spec fn effective_fee(
    cfg: AmmConfigConsensus,
    num_peers: int,
    rows: Seq<(FeeVoteKey, u16)>,
    pool: PoolId,
) -> u16 {
    let votes = fees_of(votes_in(rows, pool));
    let needed = threshold_of(num_peers);
    let fee = if votes.len() >= needed {
        nth_smallest_of(votes, needed - 1)
    } else {
        configured_fee(cfg.fee_overrides, cfg.default_fee_per_mille, pool)
    };
    cfg.clamped_fee(fee)
}

/// The fee in force for a pool.
pub fn aggregate_fee(
    cfg: &AmmConfigConsensus,
    num_peers: usize,
    table: &Table<FeeVoteKey, u16>,
    pool: PoolId,
) -> (r: u16)
    requires
        cfg.wf(),
        cfg.min_fee_per_mille <= cfg.max_fee_per_mille,
        num_peers >= 1,
    ensures
        r == effective_fee(*cfg, num_peers as int, table.rows(), pool),
        cfg.min_fee_per_mille <= r <= cfg.max_fee_per_mille,
{
    let votes: Vec<(PeerId, u16)> = votes_for(table, pool);
    let mut fees: Vec<u16> = Vec::new();
    let mut i: usize = 0;
    while i < votes.len()
        invariant
            i <= votes@.len(),
            fees@ == fees_of(votes@).take(i as int),
        decreases votes@.len() - i,
    {
        fees.push(votes[i].1);
        i = i + 1;
        assert(fees@ =~= fees_of(votes@).take(i as int));
    }
    assert(fees@ =~= fees_of(votes@));
    let needed: usize = threshold(num_peers);
    let fee: u16 = if fees.len() >= needed {
        nth_smallest(&fees, needed - 1)
    } else {
        cfg.fee_for(pool)
    };
    cfg.clamp_fee_to_band(fee)
}

/// The fee in force always lies in the configured band, whatever was voted and
/// whatever was configured.
pub proof fn law_fee_always_in_band(
    cfg: AmmConfigConsensus,
    num_peers: int,
    rows: Seq<(FeeVoteKey, u16)>,
    pool: PoolId,
)
    requires
        cfg.min_fee_per_mille <= cfg.max_fee_per_mille,
    ensures
        cfg.min_fee_per_mille <= effective_fee(cfg, num_peers, rows, pool)
            <= cfg.max_fee_per_mille,
{
}

/// The number of votes that lie outside `[low, high]`.
pub open spec fn count_outside(votes: Seq<u16>, low: int, high: int) -> int {
    count_below(votes, low) + (votes.len() - count_below(votes, high + 1))
}

/// The vote at the threshold's place is never below what the honest guardians
/// voted, so long as no more votes lie outside their range than guardians may
/// be faulty. It is never above that range either, once at least a threshold of
/// votes lies within it: then no faulty guardian moves the fee beyond what
/// honest ones chose.
pub proof fn law_faulty_guardians_cannot_leave_the_honest_range(
    votes: Seq<u16>,
    num_peers: int,
    low: u16,
    high: u16,
)
    requires
        num_peers >= 1,
        votes.len() >= threshold_of(num_peers),
        low <= high,
        count_outside(votes, low as int, high as int) <= max_evil_of(num_peers),
    ensures
        nth_smallest_of(votes, threshold_of(num_peers) - 1) >= low,
        votes.len() - count_outside(votes, low as int, high as int) >= threshold_of(num_peers)
            ==> nth_smallest_of(votes, threshold_of(num_peers) - 1) <= high,
{
    let needed = threshold_of(num_peers);
    let x = nth_smallest_of(votes, needed - 1);
    lemma_nth_smallest_exists(votes, needed - 1);
    assert(is_nth_smallest(votes, needed - 1, x));
    lemma_count_below_grows(votes, low as int, high + 1);
    if x < low {
        lemma_count_below_grows(votes, x + 1, low as int);
    }
    if votes.len() - count_outside(votes, low as int, high as int) >= needed && x > high {
        lemma_count_below_grows(votes, high + 1, x as int);
    }
}

/// The same of the fee in force: with the honest range inside the band and a
/// threshold of votes within it, the fee in force lies within it too.
pub proof fn law_fee_in_force_stays_in_the_honest_range(
    cfg: AmmConfigConsensus,
    num_peers: int,
    rows: Seq<(FeeVoteKey, u16)>,
    pool: PoolId,
    low: u16,
    high: u16,
)
    requires
        num_peers >= 1,
        cfg.min_fee_per_mille <= low <= high <= cfg.max_fee_per_mille,
        ({
            let votes = fees_of(votes_in(rows, pool));
            let outside = count_outside(votes, low as int, high as int);
            outside <= max_evil_of(num_peers) && votes.len() - outside >= threshold_of(num_peers)
        }),
    ensures
        low <= effective_fee(cfg, num_peers, rows, pool) <= high,
{
    let votes = fees_of(votes_in(rows, pool));
    lemma_count_below_grows(votes, low as int, high + 1);
    law_faulty_guardians_cannot_leave_the_honest_range(votes, num_peers, low, high);
}

/// There is a vote at each place.
pub proof fn lemma_nth_smallest_exists(votes: Seq<u16>, n: int)
    requires
        0 <= n < votes.len(),
    ensures
        is_nth_smallest(votes, n, nth_smallest_of(votes, n)),
{
    assert forall|i: int| 0 <= i < votes.len() implies #[trigger] votes[i] < 0x1_0000 by {}
    lemma_count_below_all(votes, 0x1_0000);
    assert forall|i: int| 0 <= i < votes.len() implies #[trigger] votes[i] >= 0 by {}
    lemma_count_below_none(votes, 0);
    lemma_nth_smallest_search(votes, n, 0x1_0000);
}

proof fn lemma_nth_smallest_search(votes: Seq<u16>, n: int, x: int)
    requires
        0 <= n < count_below(votes, x),
        count_below(votes, 0) == 0,
        0 <= x <= 0x1_0000,
    ensures
        is_nth_smallest(votes, n, nth_smallest_of(votes, n)),
    decreases x,
{
    if count_below(votes, x - 1) <= n {
        lemma_count_below_step(votes, (x - 1) as u16);
        assert(is_nth_smallest(votes, n, (x - 1) as u16));
    } else {
        lemma_nth_smallest_search(votes, n, x - 1);
    }
}

/// The votes for a pool are the rows that name it.
proof fn lemma_votes_are_the_pools_rows(rows: Seq<(FeeVoteKey, u16)>, pool: PoolId)
    ensures
        fees_of(votes_in(rows, pool)) == rows.filter(
            |row: (FeeVoteKey, u16)| row.0.pool == pool,
        ).map_values(|row: (FeeVoteKey, u16)| row.1),
    decreases rows.len(),
{
    reveal(Seq::filter);
    let names = |row: (FeeVoteKey, u16)| row.0.pool == pool;
    let fee = |row: (FeeVoteKey, u16)| row.1;
    let mine = rows.filter(names);
    if rows.len() > 0 {
        let front = rows.drop_last();
        let (key, vote) = rows.last();
        lemma_votes_are_the_pools_rows(front, pool);
        let before = fees_of(votes_in(front, pool));
        assert(before == front.filter(names).map_values(fee));
        if key.pool == pool {
            assert(mine == front.filter(names).push(rows.last()));
            assert(mine.map_values(fee) =~= before.push(vote));
            assert(votes_in(rows, pool) == votes_in(front, pool).push((key.peer, vote)));
            assert(fees_of(votes_in(rows, pool)) =~= before.push(vote));
        } else {
            assert(mine == front.filter(names));
        }
    } else {
        assert(fees_of(votes_in(rows, pool)) =~= mine.map_values(fee));
    }
}

/// Counting the votes below a value is counting the ones that are.
proof fn lemma_count_is_filter(votes: Seq<u16>, x: int)
    ensures
        count_below(votes, x) == votes.filter(|vote: u16| vote < x).len(),
    decreases votes.len(),
{
    reveal(Seq::filter);
    if votes.len() > 0 {
        lemma_count_is_filter(votes.drop_last(), x);
    }
}

/// No fee is in force that fewer than a threshold of guardians voted for or
/// below, and none lower than that is passed over. Once all but a third of the
/// other guardians have voted on a pool, the fee in force comes from one of
/// their votes: that many votes lie at or below it, fewer lie strictly below it,
/// and it is taken as it is inside the band and as the nearer end outside it.
/// Before that the configured fee is treated the same way.
pub proof fn law_fee_in_force_has_a_threshold_behind_it(
    cfg: AmmConfigConsensus,
    num_peers: int,
    rows: Seq<(FeeVoteKey, u16)>,
    pool: PoolId,
)
    requires
        num_peers >= 1,
        cfg.min_fee_per_mille <= cfg.max_fee_per_mille,
    ensures
        ({
            let votes = rows.filter(|row: (FeeVoteKey, u16)| row.0.pool == pool).map_values(
                |row: (FeeVoteKey, u16)| row.1,
            );
            let needed = num_peers - (num_peers - 1) / 3;
            let fee = effective_fee(cfg, num_peers, rows, pool);
            exists|chosen: u16|
                {
                    &&& if votes.len() >= needed {
                        &&& #[trigger] votes.contains(chosen)
                        &&& votes.filter(|vote: u16| vote <= chosen).len() >= needed
                        &&& votes.filter(|vote: u16| vote < chosen).len() < needed
                    } else {
                        cfg.fee_overrides.lookup(pool) == Some(chosen) || (
                        cfg.fee_overrides.lookup(pool) is None && chosen
                            == cfg.default_fee_per_mille)
                    }
                    &&& chosen < cfg.min_fee_per_mille ==> fee == cfg.min_fee_per_mille
                    &&& chosen > cfg.max_fee_per_mille ==> fee == cfg.max_fee_per_mille
                    &&& cfg.min_fee_per_mille <= chosen <= cfg.max_fee_per_mille ==> fee == chosen
                }
        }),
{
    let votes = fees_of(votes_in(rows, pool));
    let needed = num_peers - (num_peers - 1) / 3;
    lemma_votes_are_the_pools_rows(rows, pool);
    let chosen = if votes.len() >= needed {
        let chosen = nth_smallest_of(votes, needed - 1);
        lemma_nth_smallest_exists(votes, needed - 1);
        assert(is_nth_smallest(votes, needed - 1, chosen));
        lemma_count_is_filter(votes, chosen as int);
        lemma_count_is_filter(votes, chosen + 1);
        assert(votes.filter(|vote: u16| vote <= chosen) == votes.filter(
            |vote: u16| vote < chosen + 1,
        )) by {
            lemma_filters_agree(
                votes,
                |vote: u16| vote <= chosen,
                |vote: u16| vote < chosen + 1,
            );
        }
        assert(votes.filter(|vote: u16| vote < chosen) == votes.filter(
            |vote: u16| vote < chosen as int,
        )) by {
            lemma_filters_agree(
                votes,
                |vote: u16| vote < chosen,
                |vote: u16| vote < chosen as int,
            );
        }
        chosen
    } else {
        configured_fee(cfg.fee_overrides, cfg.default_fee_per_mille, pool)
    };
    let known = votes.contains(chosen);
}

/// Two ways to tell votes apart that agree keep the same votes.
proof fn lemma_filters_agree(
    votes: Seq<u16>,
    a: spec_fn(u16) -> bool,
    b: spec_fn(u16) -> bool,
)
    requires
        forall|vote: u16| #[trigger] a(vote) == b(vote),
    ensures
        votes.filter(a) == votes.filter(b),
    decreases votes.len(),
{
    reveal(Seq::filter);
    if votes.len() > 0 {
        lemma_filters_agree(votes.drop_last(), a, b);
    }
}

} // verus!
