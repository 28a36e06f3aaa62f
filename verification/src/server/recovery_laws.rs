//! What a caller sees that walks a recovery endpoint to its end.

use vstd::prelude::*;

use crate::endpoints::{
    ApiError, BalanceRecoveryEntry, BalanceRecoveryResponse, LpRecoveryEntry, LpRecoveryResponse,
    RecoveryPageRequest, MAX_RECOVERY_PAGE_SIZE,
};
use crate::server::api::{
    balance_entry, balance_recovery_answer, lp_entry, lp_recovery_answer,
};
use crate::server::db::{
    lemma_balance_key_len, lemma_position_key_len, BalanceKey, LpPositionKey,
};
use crate::server::ledger::Ledger;
use crate::server::recovery::{
    after_cursor, can_be_cursors, cursor_error, cursor_view, law_a_handed_out_cursor_is_accepted,
    law_page_and_next_are_all_that_is_left, lemma_walk_step, only_deleted_up_to, page_limit,
    page_next, page_rows, MAX_RECOVERY_CURSOR_LEN,
};
use crate::table::TableKey;

verus! {

/// The balances of several pages, one after the other.
pub open spec fn balance_seen(replies: Seq<Result<BalanceRecoveryResponse, ApiError>>) -> Seq<BalanceRecoveryEntry>
    decreases replies.len(),
{
    if replies.len() == 0 {
        Seq::empty()
    } else {
        match replies[0] {
            Ok(page) => page.entries@ + balance_seen(replies.skip(1)),
            Err(_) => balance_seen(replies.skip(1)),
        }
    }
}

/// Whether requests and replies are those of a caller that starts at `cursor`,
/// goes on with each cursor it is handed, and stops when it is handed none or is
/// refused. The ledger may be another at each call: between two calls,
/// balances that were handed out already may go away.
pub open spec fn balance_walk(
    ledgers: Seq<Ledger>,
    requests: Seq<RecoveryPageRequest>,
    replies: Seq<Result<BalanceRecoveryResponse, ApiError>>,
    cursor: Option<Seq<u8>>,
) -> bool
    decreases replies.len(),
{
    &&& replies.len() > 0
    &&& ledgers.len() == replies.len()
    &&& requests.len() == replies.len()
    &&& ledgers[0].wf() && ledgers[0].keys_valid()
    &&& cursor_view(requests[0].cursor) == cursor
    &&& balance_recovery_answer(ledgers[0], requests[0], replies[0])
    &&& match replies[0] {
        Err(_) => replies.len() == 1,
        Ok(page) => match cursor_view(page.next_cursor) {
            None => replies.len() == 1,
            Some(next) => {
                &&& balance_walk(ledgers.skip(1), requests.skip(1), replies.skip(1), Some(next))
                &&& only_deleted_up_to(
                    ledgers[0].balances.rows(),
                    ledgers[1].balances.rows(),
                    next,
                )
            },
        },
    }
}

/// A caller that follows the cursors from the start is never refused, and sees
/// every balance that was there at the start exactly once, in key order, whatever
/// page sizes it asks for and although balances it has seen may go away meanwhile.
/// No page is larger than was asked for, or than the maximum, and the walk ends
/// after at most one call more than there are rows.
pub proof fn law_balance_walk_sees_every_row_once(
    ledgers: Seq<Ledger>,
    requests: Seq<RecoveryPageRequest>,
    replies: Seq<Result<BalanceRecoveryResponse, ApiError>>,
)
    requires
        balance_walk(ledgers, requests, replies, None),
    ensures
        balance_seen(replies) == ledgers[0].balances.rows().map_values(balance_entry()),
        replies.len() <= ledgers[0].balances.rows().len() + 1,
        forall|i: int|
            0 <= i < replies.len() ==> (#[trigger] replies[i]) is Ok && (
            replies[i]->Ok_0).entries@.len() <= page_limit(requests[i].limit)
                <= MAX_RECOVERY_PAGE_SIZE,
{
    lemma_balance_walk(ledgers, requests, replies, None);
}

proof fn lemma_balance_walk(
    ledgers: Seq<Ledger>,
    requests: Seq<RecoveryPageRequest>,
    replies: Seq<Result<BalanceRecoveryResponse, ApiError>>,
    cursor: Option<Seq<u8>>,
)
    requires
        balance_walk(ledgers, requests, replies, cursor),
        cursor_error::<BalanceKey>(cursor) is None,
    ensures
        balance_seen(replies) == after_cursor(ledgers[0].balances.rows(), cursor).map_values(
            balance_entry(),
        ),
        replies.len() <= after_cursor(ledgers[0].balances.rows(), cursor).len() + 1,
        forall|i: int|
            0 <= i < replies.len() ==> (#[trigger] replies[i]) is Ok && (
            replies[i]->Ok_0).entries@.len() <= page_limit(requests[i].limit)
                <= MAX_RECOVERY_PAGE_SIZE,
    decreases replies.len(),
{
    let rows = ledgers[0].balances.rows();
    let limit = page_limit(requests[0].limit);
    let page = page_rows(rows, cursor, limit);
    lemma_balance_keys_are_cursors(ledgers[0]);
    law_page_and_next_are_all_that_is_left(rows, cursor, limit);
    let rest = replies.skip(1);
    match page_next(rows, cursor, limit) {
        None => {
            assert(balance_seen(rest) =~= Seq::<BalanceRecoveryEntry>::empty());
            assert(balance_seen(replies) =~= page.map_values(balance_entry()));
        },
        Some(next) => {
            let left = ledgers[1].balances.rows();
            reveal_with_fuel(balance_walk, 2);
            assert(replies.skip(1).len() > 0);
            assert(ledgers.skip(1)[0] == ledgers[1]);
            lemma_walk_step(rows, left, cursor, limit);
            lemma_balance_walk(ledgers.skip(1), requests.skip(1), rest, Some(next));
            let behind = after_cursor(left, Some(next));
            assert((page + behind).map_values(balance_entry()) =~= page.map_values(balance_entry())
                + behind.map_values(balance_entry()));
            assert forall|i: int| 0 <= i < replies.len() implies (#[trigger] replies[i]) is Ok && (
            replies[i]->Ok_0).entries@.len() <= page_limit(requests[i].limit)
                <= MAX_RECOVERY_PAGE_SIZE by {
                if i > 0 {
                    assert(rest[i - 1] == replies[i]);
                    assert(requests.skip(1)[i - 1] == requests[i]);
                }
            }
        },
    }
}

/// Where every stored key reads back, the keys of balances can be cursors.
proof fn lemma_balance_keys_are_cursors(ledger: Ledger)
    requires
        ledger.wf(),
        ledger.keys_valid(),
    ensures
        can_be_cursors(ledger.balances.rows()),
{
    let rows = ledger.balances.rows();
    assert forall|i: int| 0 <= i < rows.len() implies (#[trigger] rows[i]).0.key_valid()
        && rows[i].0.key_bytes().len() <= MAX_RECOVERY_CURSOR_LEN by {
        ledger.balances.lemma_row(i);
        lemma_balance_key_len(rows[i].0);
    }
}

/// Every cursor that a page of balances hands out is accepted when it comes back.
pub proof fn law_balance_cursor_is_accepted(
    ledger: Ledger,
    cursor: Option<Seq<u8>>,
    limit: Option<u32>,
)
    requires
        ledger.wf(),
        ledger.keys_valid(),
    ensures
        cursor_error::<BalanceKey>(
            page_next(ledger.balances.rows(), cursor, page_limit(limit)),
        ) is None,
{
    lemma_balance_keys_are_cursors(ledger);
    law_a_handed_out_cursor_is_accepted(ledger.balances.rows(), cursor, page_limit(limit));
}

/// The positions of several pages, one after the other.
pub open spec fn position_seen(replies: Seq<Result<LpRecoveryResponse, ApiError>>) -> Seq<LpRecoveryEntry>
    decreases replies.len(),
{
    if replies.len() == 0 {
        Seq::empty()
    } else {
        match replies[0] {
            Ok(page) => page.entries@ + position_seen(replies.skip(1)),
            Err(_) => position_seen(replies.skip(1)),
        }
    }
}

/// Whether requests and replies are those of a caller that starts at `cursor`,
/// goes on with each cursor it is handed, and stops when it is handed none or is
/// refused. The ledger may be another at each call: between two calls,
/// positions that were handed out already may go away.
pub open spec fn position_walk(
    ledgers: Seq<Ledger>,
    requests: Seq<RecoveryPageRequest>,
    replies: Seq<Result<LpRecoveryResponse, ApiError>>,
    cursor: Option<Seq<u8>>,
) -> bool
    decreases replies.len(),
{
    &&& replies.len() > 0
    &&& ledgers.len() == replies.len()
    &&& requests.len() == replies.len()
    &&& ledgers[0].wf() && ledgers[0].keys_valid()
    &&& cursor_view(requests[0].cursor) == cursor
    &&& lp_recovery_answer(ledgers[0], requests[0], replies[0])
    &&& match replies[0] {
        Err(_) => replies.len() == 1,
        Ok(page) => match cursor_view(page.next_cursor) {
            None => replies.len() == 1,
            Some(next) => {
                &&& position_walk(ledgers.skip(1), requests.skip(1), replies.skip(1), Some(next))
                &&& only_deleted_up_to(
                    ledgers[0].positions.rows(),
                    ledgers[1].positions.rows(),
                    next,
                )
            },
        },
    }
}

/// A caller that follows the cursors from the start is never refused, and sees
/// every position that was there at the start exactly once, in key order, whatever
/// page sizes it asks for and although positions it has seen may go away meanwhile.
/// No page is larger than was asked for, or than the maximum, and the walk ends
/// after at most one call more than there are rows.
pub proof fn law_position_walk_sees_every_row_once(
    ledgers: Seq<Ledger>,
    requests: Seq<RecoveryPageRequest>,
    replies: Seq<Result<LpRecoveryResponse, ApiError>>,
)
    requires
        position_walk(ledgers, requests, replies, None),
    ensures
        position_seen(replies) == ledgers[0].positions.rows().map_values(lp_entry()),
        replies.len() <= ledgers[0].positions.rows().len() + 1,
        forall|i: int|
            0 <= i < replies.len() ==> (#[trigger] replies[i]) is Ok && (
            replies[i]->Ok_0).entries@.len() <= page_limit(requests[i].limit)
                <= MAX_RECOVERY_PAGE_SIZE,
{
    lemma_position_walk(ledgers, requests, replies, None);
}

proof fn lemma_position_walk(
    ledgers: Seq<Ledger>,
    requests: Seq<RecoveryPageRequest>,
    replies: Seq<Result<LpRecoveryResponse, ApiError>>,
    cursor: Option<Seq<u8>>,
)
    requires
        position_walk(ledgers, requests, replies, cursor),
        cursor_error::<LpPositionKey>(cursor) is None,
    ensures
        position_seen(replies) == after_cursor(ledgers[0].positions.rows(), cursor).map_values(
            lp_entry(),
        ),
        replies.len() <= after_cursor(ledgers[0].positions.rows(), cursor).len() + 1,
        forall|i: int|
            0 <= i < replies.len() ==> (#[trigger] replies[i]) is Ok && (
            replies[i]->Ok_0).entries@.len() <= page_limit(requests[i].limit)
                <= MAX_RECOVERY_PAGE_SIZE,
    decreases replies.len(),
{
    let rows = ledgers[0].positions.rows();
    let limit = page_limit(requests[0].limit);
    let page = page_rows(rows, cursor, limit);
    lemma_position_keys_are_cursors(ledgers[0]);
    law_page_and_next_are_all_that_is_left(rows, cursor, limit);
    let rest = replies.skip(1);
    match page_next(rows, cursor, limit) {
        None => {
            assert(position_seen(rest) =~= Seq::<LpRecoveryEntry>::empty());
            assert(position_seen(replies) =~= page.map_values(lp_entry()));
        },
        Some(next) => {
            let left = ledgers[1].positions.rows();
            reveal_with_fuel(position_walk, 2);
            assert(replies.skip(1).len() > 0);
            assert(ledgers.skip(1)[0] == ledgers[1]);
            lemma_walk_step(rows, left, cursor, limit);
            lemma_position_walk(ledgers.skip(1), requests.skip(1), rest, Some(next));
            let behind = after_cursor(left, Some(next));
            assert((page + behind).map_values(lp_entry()) =~= page.map_values(lp_entry())
                + behind.map_values(lp_entry()));
            assert forall|i: int| 0 <= i < replies.len() implies (#[trigger] replies[i]) is Ok && (
            replies[i]->Ok_0).entries@.len() <= page_limit(requests[i].limit)
                <= MAX_RECOVERY_PAGE_SIZE by {
                if i > 0 {
                    assert(rest[i - 1] == replies[i]);
                    assert(requests.skip(1)[i - 1] == requests[i]);
                }
            }
        },
    }
}

/// Where every stored key reads back, the keys of positions can be cursors.
proof fn lemma_position_keys_are_cursors(ledger: Ledger)
    requires
        ledger.wf(),
        ledger.keys_valid(),
    ensures
        can_be_cursors(ledger.positions.rows()),
{
    let rows = ledger.positions.rows();
    assert forall|i: int| 0 <= i < rows.len() implies (#[trigger] rows[i]).0.key_valid()
        && rows[i].0.key_bytes().len() <= MAX_RECOVERY_CURSOR_LEN by {
        ledger.positions.lemma_row(i);
        lemma_position_key_len(rows[i].0);
    }
}

/// Every cursor that a page of positions hands out is accepted when it comes back.
pub proof fn law_position_cursor_is_accepted(
    ledger: Ledger,
    cursor: Option<Seq<u8>>,
    limit: Option<u32>,
)
    requires
        ledger.wf(),
        ledger.keys_valid(),
    ensures
        cursor_error::<LpPositionKey>(
            page_next(ledger.positions.rows(), cursor, page_limit(limit)),
        ) is None,
{
    lemma_position_keys_are_cursors(ledger);
    law_a_handed_out_cursor_is_accepted(ledger.positions.rows(), cursor, page_limit(limit));
}

} // verus!
