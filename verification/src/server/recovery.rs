//! Walking a table a page at a time, by the key that the last page ended on.

use vstd::prelude::*;

use crate::bytes::{
    bytes_lt, lemma_lex_asymmetric, lemma_lex_irreflexive, lemma_lex_successor, lemma_lex_total,
    lemma_lex_transitive, lex_lt,
};
use crate::endpoints::MAX_RECOVERY_PAGE_SIZE;
use crate::table::{Table, TableKey};

verus! {

/// The longest cursor that is looked at.
pub const MAX_RECOVERY_CURSOR_LEN: usize = 256;

/// The page size in force for a requested one.
pub open spec fn page_limit(requested: Option<u32>) -> int {
    match requested {
        None => MAX_RECOVERY_PAGE_SIZE as int,
        Some(n) => if n < 1 {
            1
        } else if n > MAX_RECOVERY_PAGE_SIZE {
            MAX_RECOVERY_PAGE_SIZE as int
        } else {
            n as int
        },
    }
}

/// The page size in force for a requested one: at least one row, at most the
/// maximum, and the maximum where none was asked for.
pub fn recovery_page_limit(requested: Option<u32>) -> (r: usize)
    ensures
        r == page_limit(requested),
        1 <= r <= MAX_RECOVERY_PAGE_SIZE,
{
    match requested {
        None => MAX_RECOVERY_PAGE_SIZE as usize,
        Some(n) => if n < 1 {
            1
        } else if n > MAX_RECOVERY_PAGE_SIZE {
            MAX_RECOVERY_PAGE_SIZE as usize
        } else {
            n as usize
        },
    }
}

/// `bytes`, or the end of `[low, high]` that it lies beyond.
pub open spec fn clamped_bytes(bytes: Seq<u8>, low: Seq<u8>, high: Seq<u8>) -> Seq<u8> {
    if lex_lt(bytes, low) {
        low
    } else if lex_lt(high, bytes) {
        high
    } else {
        bytes
    }
}

/// Where a scan behind `cursor` starts.
pub open spec fn range_start(db_prefix: u8, cursor: Option<Seq<u8>>) -> Seq<u8> {
    match cursor {
        None => seq![db_prefix],
        Some(last) => clamped_bytes(
            last.push(0),
            seq![db_prefix],
            seq![(db_prefix + 1) as u8],
        ),
    }
}

/// The half-open range of keys that one page is taken from: from just behind the
/// cursor to the end of the table, and never outside the table whatever the
/// cursor is.
pub fn recovery_range(db_prefix: u8, cursor: Option<&[u8]>) -> (r: (Vec<u8>, Vec<u8>))
    requires
        db_prefix < u8::MAX,
    ensures
        r.0@ == range_start(
            db_prefix,
            match cursor {
                Some(c) => Some(c@),
                None => None,
            },
        ),
        r.1@ == seq![(db_prefix + 1) as u8],
{
    let prefix_start = vec![db_prefix];
    let prefix_end = vec![db_prefix + 1];
    assert(prefix_start@ =~= seq![db_prefix]);
    assert(prefix_end@ =~= seq![(db_prefix + 1) as u8]);
    let start = match cursor {
        Some(last) => {
            let mut candidate: Vec<u8> = Vec::new();
            crate::bytes::append_bytes(&mut candidate, last);
            candidate.push(0);
            assert(candidate@ =~= last@.push(0));
            if bytes_lt(candidate.as_slice(), prefix_start.as_slice()) {
                prefix_start
            } else if bytes_lt(prefix_end.as_slice(), candidate.as_slice()) {
                let at_end = vec![db_prefix + 1];
                assert(at_end@ =~= prefix_end@);
                at_end
            } else {
                candidate
            }
        },
        None => prefix_start,
    };
    (start, prefix_end)
}

/// Keys of the table named by a byte sort from that byte on and before the next.
pub proof fn lemma_prefix_bounds(db_prefix: u8, key: Seq<u8>)
    requires
        db_prefix < u8::MAX,
    ensures
        key.len() > 0 && key[0] == db_prefix <==> !lex_lt(key, seq![db_prefix]) && lex_lt(
            key,
            seq![(db_prefix + 1) as u8],
        ),
{
    let low = seq![db_prefix];
    let high = seq![(db_prefix + 1) as u8];
    assert(low.drop_first() =~= Seq::<u8>::empty());
    assert(high.drop_first() =~= Seq::<u8>::empty());
    if key.len() > 0 {
        assert(!lex_lt(key.drop_first(), low.drop_first()));
        assert(!lex_lt(key.drop_first(), high.drop_first()));
    }
}

/// Whatever the cursor, the range holds keys of its own table only.
pub proof fn law_range_never_leaves_the_table(
    db_prefix: u8,
    cursor: Option<Seq<u8>>,
    key: Seq<u8>,
)
    requires
        db_prefix < u8::MAX,
        !lex_lt(key, range_start(db_prefix, cursor)),
        lex_lt(key, seq![(db_prefix + 1) as u8]),
    ensures
        key.len() > 0 && key[0] == db_prefix,
{
    let start = range_start(db_prefix, cursor);
    let low = seq![db_prefix];
    let high = seq![(db_prefix + 1) as u8];
    lemma_prefix_bounds(db_prefix, low);
    lemma_lex_irreflexive(low);
    assert(!lex_lt(start, low)) by {
        if let Some(last) = cursor {
            if lex_lt(last.push(0), low) {
            } else if lex_lt(high, last.push(0)) {
                if lex_lt(high, low) {
                    lemma_lex_transitive(low, high, low);
                }
            }
        }
    }
    if lex_lt(key, low) {
        lemma_lex_total(start, low);
        if lex_lt(low, start) {
            lemma_lex_transitive(key, low, start);
        }
    }
    lemma_prefix_bounds(db_prefix, key);
}

/// The rows behind a cursor, of rows in key order.
pub open spec fn after_cursor<K: TableKey, V>(
    rows: Seq<(K, V)>,
    cursor: Option<Seq<u8>>,
) -> Seq<(K, V)>
    decreases rows.len(),
{
    match cursor {
        None => rows,
        Some(last) => if rows.len() == 0 || lex_lt(last, rows[0].0.key_bytes()) {
            rows
        } else {
            after_cursor(rows.skip(1), cursor)
        },
    }
}

/// The rows behind a cursor are those from the first one that sorts behind it.
pub proof fn lemma_after_cursor<K: TableKey, V>(
    rows: Seq<(K, V)>,
    last: Seq<u8>,
    n: int,
)
    requires
        0 <= n <= rows.len(),
        forall|j: int| 0 <= j < n ==> !lex_lt(last, (#[trigger] rows[j]).0.key_bytes()),
        n < rows.len() ==> lex_lt(last, rows[n].0.key_bytes()),
    ensures
        after_cursor(rows, Some(last)) == rows.skip(n),
    decreases n,
{
    if n == 0 {
        assert(rows.skip(0) =~= rows);
    } else {
        assert(!lex_lt(last, rows[0].0.key_bytes()));
        let rest = rows.skip(1);
        assert forall|j: int| 0 <= j < n - 1 implies !lex_lt(
            last,
            (#[trigger] rest[j]).0.key_bytes(),
        ) by {
            assert(rest[j] == rows[j + 1]);
        }
        lemma_after_cursor(rest, last, n - 1);
        assert(rest.skip(n - 1) =~= rows.skip(n));
    }
}

/// The rows of one page.
pub open spec fn page_rows<K: TableKey, V>(
    rows: Seq<(K, V)>,
    cursor: Option<Seq<u8>>,
    limit: int,
) -> Seq<(K, V)> {
    let rest = after_cursor(rows, cursor);
    if rest.len() > limit {
        rest.take(limit)
    } else {
        rest
    }
}

/// The cursor that a page hands out: the key it ends on, where rows are left.
pub open spec fn page_next<K: TableKey, V>(
    rows: Seq<(K, V)>,
    cursor: Option<Seq<u8>>,
    limit: int,
) -> Option<Seq<u8>> {
    let rest = after_cursor(rows, cursor);
    if rest.len() > limit {
        Some(rest[limit - 1].0.key_bytes())
    } else {
        None
    }
}

/// A cursor seen as its bytes.
pub open spec fn cursor_view(cursor: Option<Vec<u8>>) -> Option<Seq<u8>> {
    match cursor {
        Some(c) => Some(c@),
        None => None,
    }
}

/// The rows of a table are in key order.
pub open spec fn in_order<K: TableKey, V>(rows: Seq<(K, V)>) -> bool {
    forall|i: int, j: int|
        0 <= i < j < rows.len() ==> lex_lt(
            (#[trigger] rows[i]).0.key_bytes(),
            (#[trigger] rows[j]).0.key_bytes(),
        )
}

/// Why a cursor is not accepted.
#[derive(Debug, Clone, Copy, PartialEq, Eq, Structural)]
pub enum CursorError {
    /// It is longer than any cursor that was ever handed out.
    TooLarge,
    /// It is not a key of the table.
    Malformed,
}

/// What is wrong with a cursor: it is too long, or it is not the byte form of a
/// key of the table.
pub open spec fn cursor_error<K: TableKey>(cursor: Option<Seq<u8>>) -> Option<CursorError> {
    match cursor {
        None => None,
        Some(c) => if c.len() > MAX_RECOVERY_CURSOR_LEN {
            Some(CursorError::TooLarge)
        } else if exists|k: K| k.key_valid() && #[trigger] k.key_bytes() == c {
            None
        } else {
            Some(CursorError::Malformed)
        },
    }
}

/// One page of a table: its rows, and the cursor of the next page.
pub fn recovery_page<K: TableKey, V: Copy>(
    table: &Table<K, V>,
    db_prefix: u8,
    cursor: &Option<Vec<u8>>,
    limit: usize,
) -> (r: Result<(Vec<(K, V)>, Option<Vec<u8>>), CursorError>)
    requires
        table.wf(),
        1 <= limit <= MAX_RECOVERY_PAGE_SIZE,
        db_prefix < u8::MAX,
        forall|k: K| (#[trigger] k.key_bytes()).len() > 0 && k.key_bytes()[0] == db_prefix,
    ensures
        match cursor_error::<K>(cursor_view(*cursor)) {
            Some(e) => r == Err::<(Vec<(K, V)>, Option<Vec<u8>>), CursorError>(e),
            None => r matches Ok((rows, next)) && rows@ == page_rows(
                table.rows(),
                cursor_view(*cursor),
                limit as int,
            ) && cursor_view(next) == page_next(
                table.rows(),
                cursor_view(*cursor),
                limit as int,
            ),
        },
{
    let bytes: Option<&[u8]> = match cursor {
        Some(c) => {
            if c.len() > MAX_RECOVERY_CURSOR_LEN {
                return Err(CursorError::TooLarge);
            }
            if K::from_bytes(c.as_slice()).is_none() {
                return Err(CursorError::Malformed);
            }
            Some(c.as_slice())
        },
        None => None,
    };
    let (start, end) = recovery_range(db_prefix, bytes);
    let from: usize = table.lower_bound(start.as_slice());
    let to: usize = table.lower_bound(end.as_slice());
    proof {
        // No key of the table sorts behind its end.
        if to < table.rows().len() {
            let key = table.rows()[to as int].0;
            lemma_prefix_bounds(db_prefix, key.key_bytes());
        }
        match cursor {
            Some(c) => {
                let k = choose|k: K| k.key_valid() && #[trigger] k.key_bytes() == c@;
                lemma_range_start_of_key(db_prefix, c@);
                assert forall|j: int| 0 <= j < from implies !lex_lt(
                    c@,
                    (#[trigger] table.rows()[j]).0.key_bytes(),
                ) by {
                    lemma_lex_successor(c@, table.rows()[j].0.key_bytes());
                }
                if from < table.rows().len() {
                    lemma_lex_successor(c@, table.rows()[from as int].0.key_bytes());
                }
                lemma_after_cursor(table.rows(), c@, from as int);
            },
            None => {
                if from > 0 {
                    lemma_prefix_bounds(db_prefix, table.rows()[0].0.key_bytes());
                }
                assert(table.rows().skip(0) =~= table.rows());
            },
        }
    }
    let ghost rest = table.rows().skip(from as int);
    let mut rows: Vec<(K, V)> = Vec::new();
    let mut i: usize = from;
    while i < to && rows.len() < limit
        invariant
            from <= i <= to,
            to == table.rows().len(),
            rest == table.rows().skip(from as int),
            rows@ == rest.take(i - from),
            rows@.len() == i - from,
            rows@.len() <= limit,
        decreases to - i,
    {
        rows.push(table.row(i));
        i = i + 1;
        assert(rows@ =~= rest.take(i - from));
    }
    let next: Option<Vec<u8>> = if i < to {
        Some(rows[rows.len() - 1].0.to_bytes())
    } else {
        assert(rest.take(rest.len() as int) =~= rest);
        None
    };
    Ok((rows, next))
}

/// A scan behind a key of the table starts at the key with a zero appended.
proof fn lemma_range_start_of_key(db_prefix: u8, key: Seq<u8>)
    requires
        db_prefix < u8::MAX,
        key.len() > 0,
        key[0] == db_prefix,
    ensures
        range_start(db_prefix, Some(key)) == key.push(0),
{
    let next = key.push(0u8);
    assert(next[0] == db_prefix);
    lemma_prefix_bounds(db_prefix, next);
    lemma_lex_asymmetric(next, seq![(db_prefix + 1) as u8]);
}

/// A page and what its cursor leads to are everything that was left: no row is
/// skipped, and none comes twice.
pub proof fn law_page_and_next_are_all_that_is_left<K: TableKey, V>(
    rows: Seq<(K, V)>,
    cursor: Option<Seq<u8>>,
    limit: int,
)
    requires
        in_order(rows),
        limit >= 1,
    ensures
        match page_next(rows, cursor, limit) {
            Some(next) => after_cursor(rows, cursor) == page_rows(rows, cursor, limit)
                + after_cursor(rows, Some(next)),
            None => after_cursor(rows, cursor) == page_rows(rows, cursor, limit),
        },
{
    let rest = after_cursor(rows, cursor);
    let n = lemma_after_cursor_is_suffix(rows, cursor);
    if rest.len() > limit {
        let next = rest[limit - 1].0.key_bytes();
        let m = n + limit;
        assert(rest[limit - 1] == rows[m - 1]);
        assert forall|j: int| 0 <= j < m implies !lex_lt(
            next,
            (#[trigger] rows[j]).0.key_bytes(),
        ) by {
            if j < m - 1 {
                lemma_lex_asymmetric(rows[j].0.key_bytes(), rows[m - 1].0.key_bytes());
            } else {
                lemma_lex_irreflexive(next);
            }
        }
        assert(lex_lt(rows[m - 1].0.key_bytes(), rows[m].0.key_bytes()));
        lemma_after_cursor(rows, next, m);
        assert(rest =~= rest.take(limit) + rows.skip(m));
    }
}

/// The rows behind a cursor are the last rows.
proof fn lemma_after_cursor_is_suffix<K: TableKey, V>(
    rows: Seq<(K, V)>,
    cursor: Option<Seq<u8>>,
) -> (n: int)
    ensures
        0 <= n <= rows.len(),
        after_cursor(rows, cursor) == rows.skip(n),
        cursor is None ==> n == 0,
        cursor matches Some(last) ==> (forall|j: int|
            0 <= j < n ==> !lex_lt(last, (#[trigger] rows[j]).0.key_bytes())) && (n < rows.len()
            ==> lex_lt(last, rows[n].0.key_bytes())),
    decreases rows.len(),
{
    match cursor {
        None => {
            assert(rows.skip(0) =~= rows);
            0
        },
        Some(last) => if rows.len() == 0 || lex_lt(last, rows[0].0.key_bytes()) {
            assert(rows.skip(0) =~= rows);
            0
        } else {
            let m = lemma_after_cursor_is_suffix(rows.skip(1), cursor);
            assert(rows.skip(1).skip(m) =~= rows.skip(m + 1));
            assert forall|j: int| 0 <= j < m + 1 implies !lex_lt(
                last,
                (#[trigger] rows[j]).0.key_bytes(),
            ) by {
                if j > 0 {
                    assert(rows[j] == rows.skip(1)[j - 1]);
                }
            }
            m + 1
        },
    }
}

/// What a recovery endpoint answers: why it refuses the cursor, or the entries
/// of one page and the cursor of the next.
pub open spec fn reply<K: TableKey, V, E>(
    rows: Seq<(K, V)>,
    cursor: Option<Seq<u8>>,
    limit: Option<u32>,
    entry_of: spec_fn((K, V)) -> E,
) -> Result<(Seq<E>, Option<Seq<u8>>), CursorError> {
    match cursor_error::<K>(cursor) {
        Some(e) => Err(e),
        None => Ok(
            (
                page_rows(rows, cursor, page_limit(limit)).map_values(entry_of),
                page_next(rows, cursor, page_limit(limit)),
            ),
        ),
    }
}

/// Every key reads back, and is no longer than a cursor may be.
pub open spec fn can_be_cursors<K: TableKey, V>(rows: Seq<(K, V)>) -> bool {
    forall|i: int|
        0 <= i < rows.len() ==> (#[trigger] rows[i]).0.key_valid() && rows[i].0.key_bytes().len()
            <= MAX_RECOVERY_CURSOR_LEN
}

/// A cursor that a page hands out is accepted when it comes back.
pub proof fn law_a_handed_out_cursor_is_accepted<K: TableKey, V>(
    rows: Seq<(K, V)>,
    cursor: Option<Seq<u8>>,
    limit: int,
)
    requires
        can_be_cursors(rows),
        limit >= 1,
    ensures
        cursor_error::<K>(page_next(rows, cursor, limit)) is None,
{
    let rest = after_cursor(rows, cursor);
    let n = lemma_after_cursor_is_suffix(rows, cursor);
    if rest.len() > limit {
        let k = rows[n + limit - 1].0;
        assert(rest[limit - 1].0 == k);
        assert(k.key_valid() && k.key_bytes() == rest[limit - 1].0.key_bytes());
    }
}

/// A page has no more rows than were asked for and no more than the maximum. It
/// hands out a cursor exactly where rows are left behind it, and the cursor is
/// then the key of its last row.
pub proof fn law_a_page_is_bounded_and_tells_what_is_left<K: TableKey, V>(
    rows: Seq<(K, V)>,
    cursor: Option<Seq<u8>>,
    limit: Option<u32>,
)
    ensures
        ({
            let page = page_rows(rows, cursor, page_limit(limit));
            let next = page_next(rows, cursor, page_limit(limit));
            let left = after_cursor(rows, cursor).len();
            let asked: int = match limit {
                None => 500,
                Some(n) => if n == 0 {
                    1
                } else if n > 500 {
                    500
                } else {
                    n as int
                },
            };
            // As many rows as were asked for, or all that are left.
            &&& page.len() == (if left > asked {
                asked
            } else {
                left as int
            })
            &&& page.len() <= page_limit(limit) <= MAX_RECOVERY_PAGE_SIZE
            &&& limit matches Some(n) ==> (n >= 1 ==> page.len() <= n)
            &&& next is Some <==> after_cursor(rows, cursor).len() > page.len()
            &&& next matches Some(last) ==> page.len() > 0 && last == page.last().0.key_bytes()
        }),
{
}

/// Whether nothing but rows at or before `last` went away between two looks at a
/// table, and nothing was added.
pub open spec fn only_deleted_up_to<K: TableKey, V>(
    before: Seq<(K, V)>,
    after: Seq<(K, V)>,
    last: Seq<u8>,
) -> bool {
    &&& forall|row: (K, V)| #[trigger] after.contains(row) ==> before.contains(row)
    &&& forall|row: (K, V)|
        before.contains(row) && lex_lt(last, row.0.key_bytes()) ==> #[trigger] after.contains(row)
}

/// The rows behind a cursor are the rows whose keys sort behind it.
proof fn lemma_behind_members<K: TableKey, V>(rows: Seq<(K, V)>, last: Seq<u8>, row: (K, V))
    requires
        in_order(rows),
    ensures
        after_cursor(rows, Some(last)).contains(row) <==> rows.contains(row) && lex_lt(
            last,
            row.0.key_bytes(),
        ),
{
    let n = lemma_after_cursor_is_suffix(rows, Some(last));
    let rest = rows.skip(n);
    if rest.contains(row) {
        let i = choose|i: int| 0 <= i < rest.len() && rest[i] == row;
        assert(rows[n + i] == row);
        if i > 0 {
            assert(lex_lt(rows[n].0.key_bytes(), rows[n + i].0.key_bytes()));
            lemma_lex_transitive(last, rows[n].0.key_bytes(), row.0.key_bytes());
        }
    }
    if rows.contains(row) && lex_lt(last, row.0.key_bytes()) {
        let j = choose|j: int| 0 <= j < rows.len() && rows[j] == row;
        if j >= n {
            assert(rest[j - n] == row);
        }
    }
}

/// Rows in key order are determined by which rows there are.
proof fn lemma_same_rows<K: TableKey, V>(a: Seq<(K, V)>, b: Seq<(K, V)>)
    requires
        in_order(a),
        in_order(b),
        forall|row: (K, V)| #[trigger] a.contains(row) <==> b.contains(row),
    ensures
        a == b,
    decreases a.len(),
{
    if a.len() == 0 {
        if b.len() > 0 {
            assert(b.contains(b[0]));
            assert(a.contains(b[0]));
        }
        assert(a =~= b);
    } else {
        assert(a.contains(a[0]));
        let j = choose|j: int| 0 <= j < b.len() && b[j] == a[0];
        assert(b.contains(b[0]));
        assert(a.contains(b[0]));
        let i = choose|i: int| 0 <= i < a.len() && a[i] == b[0];
        if j > 0 {
            assert(lex_lt(b[0].0.key_bytes(), b[j].0.key_bytes()));
            if i > 0 {
                assert(lex_lt(a[0].0.key_bytes(), a[i].0.key_bytes()));
                lemma_lex_asymmetric(a[0].0.key_bytes(), b[0].0.key_bytes());
            } else {
                lemma_lex_irreflexive(a[0].0.key_bytes());
            }
        }
        let x = a.skip(1);
        let y = b.skip(1);
        assert forall|row: (K, V)| #[trigger] x.contains(row) <==> y.contains(row) by {
            lemma_tail_members(a, row);
            lemma_tail_members(b, row);
            assert(a.contains(row) <==> b.contains(row));
        }
        lemma_same_rows(x, y);
        assert(a =~= seq![a[0]] + x);
        assert(b =~= seq![b[0]] + y);
    }
}

/// All rows but the first are the rows that are not the first.
proof fn lemma_tail_members<K: TableKey, V>(rows: Seq<(K, V)>, row: (K, V))
    requires
        in_order(rows),
        rows.len() > 0,
    ensures
        rows.skip(1).contains(row) <==> rows.contains(row) && row != rows[0],
{
    let tail = rows.skip(1);
    if tail.contains(row) {
        let i = choose|i: int| 0 <= i < tail.len() && tail[i] == row;
        assert(rows[i + 1] == row);
        assert(lex_lt(rows[0].0.key_bytes(), rows[i + 1].0.key_bytes()));
        lemma_lex_irreflexive(rows[0].0.key_bytes());
    }
    if rows.contains(row) && row != rows[0] {
        let i = choose|i: int| 0 <= i < rows.len() && rows[i] == row;
        assert(tail[i - 1] == row);
    }
}

/// Rows that disappear at or before the cursor, any number of them, take nothing
/// away from the pages behind it.
pub proof fn law_cursor_survives_deletions_before_it<K: TableKey, V>(
    rows: Seq<(K, V)>,
    left: Seq<(K, V)>,
    last: Seq<u8>,
)
    requires
        in_order(rows),
        in_order(left),
        only_deleted_up_to(rows, left, last),
    ensures
        after_cursor(left, Some(last)) == after_cursor(rows, Some(last)),
{
    let a = after_cursor(left, Some(last));
    let b = after_cursor(rows, Some(last));
    let n = lemma_after_cursor_is_suffix(left, Some(last));
    let m = lemma_after_cursor_is_suffix(rows, Some(last));
    assert forall|row: (K, V)| #[trigger] a.contains(row) <==> b.contains(row) by {
        lemma_behind_members(left, last, row);
        lemma_behind_members(rows, last, row);
    }
    lemma_same_rows(a, b);
}

/// One step of a walk: what is left behind a cursor is the page that is handed
/// out and what the next call finds, and the next call is not refused.
pub proof fn lemma_walk_step<K: TableKey, V>(
    rows: Seq<(K, V)>,
    left: Seq<(K, V)>,
    cursor: Option<Seq<u8>>,
    limit: int,
)
    requires
        in_order(rows),
        in_order(left),
        can_be_cursors(rows),
        limit >= 1,
        page_next(rows, cursor, limit) matches Some(next) && only_deleted_up_to(rows, left, next),
    ensures
        cursor_error::<K>(page_next(rows, cursor, limit)) is None,
        after_cursor(rows, cursor) == page_rows(rows, cursor, limit) + after_cursor(
            left,
            page_next(rows, cursor, limit),
        ),
{
    let next = page_next(rows, cursor, limit)->0;
    law_page_and_next_are_all_that_is_left(rows, cursor, limit);
    law_cursor_survives_deletions_before_it(rows, left, next);
    law_a_handed_out_cursor_is_accepted(rows, cursor, limit);
}

} // verus!
