//! An ordered table: rows sorted by the byte form of their keys, as a key-value
//! store keeps them.

use vstd::prelude::*;

use crate::bytes::{bytes_lt, lemma_lex_irreflexive, lemma_lex_total, lemma_lex_transitive, lex_lt};

verus! {

/// A key of a table.
pub trait TableKey: Sized + Copy {
    /// The key's byte form: the table's prefix byte, then the key's fields.
    spec fn key_bytes(self) -> Seq<u8>;

    /// Whether the byte form reads back.
    spec fn key_valid(self) -> bool;

    /// The key's byte form.
    fn to_bytes(&self) -> (r: Vec<u8>)
        ensures
            r@ == self.key_bytes(),
    ;

    /// Reads a byte form.
    fn from_bytes(bytes: &[u8]) -> (r: Option<Self>)
        ensures
            match r {
                Some(k) => k.key_valid() && k.key_bytes() == bytes@,
                None => forall|k: Self| k.key_valid() ==> #[trigger] k.key_bytes() != bytes@,
            },
    ;

    /// A key is determined by its byte form.
    proof fn lemma_key_injective(a: Self, b: Self)
        requires
            a.key_bytes() == b.key_bytes(),
        ensures
            a == b,
    ;
}

/// A table of rows.
#[derive(Debug, Clone, PartialEq, Eq)]
pub struct Table<K, V> {
    rows: Vec<(K, V)>,
}

/// The sum of `f` over a row of entries.
pub open spec fn seq_total<K, V>(rows: Seq<(K, V)>, f: spec_fn(K, V) -> int) -> int
    decreases rows.len(),
{
    if rows.len() == 0 {
        0
    } else {
        seq_total(rows.drop_last(), f) + f(rows.last().0, rows.last().1)
    }
}

/// A sum can be taken in two parts.
pub proof fn lemma_total_split<K, V>(a: Seq<(K, V)>, b: Seq<(K, V)>, f: spec_fn(K, V) -> int)
    ensures
        seq_total(a + b, f) == seq_total(a, f) + seq_total(b, f),
    decreases b.len(),
{
    if b.len() == 0 {
        assert(a + b =~= a);
    } else {
        assert((a + b).drop_last() =~= a + b.drop_last());
        lemma_total_split(a, b.drop_last(), f);
    }
}

/// The sum over one entry.
proof fn lemma_total_one<K, V>(k: K, v: V, f: spec_fn(K, V) -> int)
    ensures
        seq_total(seq![(k, v)], f) == f(k, v),
{
    assert(seq![(k, v)].drop_last() =~= Seq::<(K, V)>::empty());
    assert(seq_total(seq![(k, v)].drop_last(), f) == 0);
}

/// A sum of parts that are not negative is at least each part.
pub proof fn lemma_total_at_least<K, V>(rows: Seq<(K, V)>, f: spec_fn(K, V) -> int, i: int)
    requires
        0 <= i < rows.len(),
        forall|k: K, v: V| #[trigger] f(k, v) >= 0,
    ensures
        seq_total(rows, f) >= f(rows[i].0, rows[i].1),
        seq_total(rows, f) >= 0,
    decreases rows.len(),
{
    lemma_total_nonnegative(rows.drop_last(), f);
    if i < rows.len() - 1 {
        lemma_total_at_least(rows.drop_last(), f, i);
    }
}

/// A sum of parts that are not negative is not negative.
pub proof fn lemma_total_nonnegative<K, V>(rows: Seq<(K, V)>, f: spec_fn(K, V) -> int)
    requires
        forall|k: K, v: V| #[trigger] f(k, v) >= 0,
    ensures
        seq_total(rows, f) >= 0,
    decreases rows.len(),
{
    if rows.len() > 0 {
        lemma_total_nonnegative(rows.drop_last(), f);
    }
}

/// Storing under a key that reads back keeps every key one that does.
pub proof fn lemma_insert_keeps_keys_valid<K: TableKey, V>(
    before: Table<K, V>,
    after: Table<K, V>,
    k: K,
    v: V,
)
    requires
        after.view() == before.view().insert(k, v),
    ensures
        before.keys_valid() && (k.key_valid() || before.lookup(k) is Some) ==> after.keys_valid(),
{
    if before.keys_valid() && (k.key_valid() || before.lookup(k) is Some) {
        assert forall|key: K| #[trigger] after.lookup(key) is Some implies key.key_valid() by {
            let was = before.lookup(key);
        }
    }
}

/// Removing a row keeps every key one that reads back.
pub proof fn lemma_remove_keeps_keys_valid<K: TableKey, V>(
    before: Table<K, V>,
    after: Table<K, V>,
    k: K,
)
    requires
        after.view() == before.view().remove(k),
    ensures
        before.keys_valid() ==> after.keys_valid(),
{
    if before.keys_valid() {
        assert forall|key: K| #[trigger] after.lookup(key) is Some implies key.key_valid() by {
            let was = before.lookup(key);
        }
    }
}

impl<K: TableKey, V> Table<K, V> {
    /// The rows, in key order.
    pub closed spec fn rows(self) -> Seq<(K, V)> {
        self.rows@
    }

    /// The rows are sorted by the byte form of their keys, and no key occurs
    /// twice.
    pub open spec fn wf(self) -> bool {
        forall|i: int, j: int|
            0 <= i < j < self.rows().len() ==> lex_lt(
                (#[trigger] self.rows()[i]).0.key_bytes(),
                (#[trigger] self.rows()[j]).0.key_bytes(),
            )
    }

    /// Whether row `i` is the row of `k`.
    pub open spec fn is_row_of(self, i: int, k: K) -> bool {
        0 <= i < self.rows().len() && self.rows()[i].0 == k
    }

    /// What the table holds.
    pub open spec fn view(self) -> Map<K, V> {
        Map::new(
            |k: K| exists|i: int| self.is_row_of(i, k),
            |k: K| self.rows()[choose|i: int| self.is_row_of(i, k)].1,
        )
    }

    /// The value under `k`, if there is one.
    pub open spec fn lookup(self, k: K) -> Option<V> {
        if self.view().dom().contains(k) {
            Some(self.view()[k])
        } else {
            None
        }
    }

    /// The byte form of every stored key reads back.
    pub open spec fn keys_valid(self) -> bool {
        forall|k: K| #[trigger] self.lookup(k) is Some ==> k.key_valid()
    }

    /// The sum of `f` over the rows.
    pub open spec fn total(self, f: spec_fn(K, V) -> int) -> int {
        seq_total(self.rows(), f)
    }

    /// `f` of the row under `k`, or zero where there is none.
    pub open spec fn part(self, k: K, f: spec_fn(K, V) -> int) -> int {
        match self.lookup(k) {
            Some(v) => f(k, v),
            None => 0,
        }
    }

    /// Each row is what the table holds under its key.
    pub proof fn lemma_row(self, i: int)
        requires
            self.wf(),
            0 <= i < self.rows().len(),
        ensures
            self.view().dom().contains(self.rows()[i].0),
            self.view()[self.rows()[i].0] == self.rows()[i].1,
            self.lookup(self.rows()[i].0) == Some(self.rows()[i].1),
    {
        let k = self.rows()[i].0;
        assert(self.is_row_of(i, k));
        let j = choose|j: int| self.is_row_of(j, k);
        assert(self.is_row_of(j, k));
        lemma_lex_irreflexive(k.key_bytes());
        if i < j {
            assert(lex_lt(self.rows()[i].0.key_bytes(), self.rows()[j].0.key_bytes()));
        } else if j < i {
            assert(lex_lt(self.rows()[j].0.key_bytes(), self.rows()[i].0.key_bytes()));
        }
    }

    /// No two rows share a key.
    pub proof fn lemma_rows_distinct(self, i: int, j: int)
        requires
            self.wf(),
            0 <= i < j < self.rows().len(),
        ensures
            self.rows()[i].0 != self.rows()[j].0,
    {
        lemma_lex_irreflexive(self.rows()[i].0.key_bytes());
    }

    /// A key that is present has a row.
    pub proof fn lemma_has_row(self, k: K) -> (i: int)
        requires
            self.wf(),
            self.lookup(k) is Some,
        ensures
            0 <= i < self.rows().len(),
            self.rows()[i] == (k, self.lookup(k)->0),
    {
        let i = choose|i: int| self.is_row_of(i, k);
        assert(self.is_row_of(i, k));
        self.lemma_row(i);
        i
    }

    /// A key whose byte form falls between two neighbouring rows is absent.
    proof fn lemma_absent(self, k: K, at: int)
        requires
            self.wf(),
            0 <= at <= self.rows().len(),
            forall|j: int|
                0 <= j < at ==> lex_lt((#[trigger] self.rows()[j]).0.key_bytes(), k.key_bytes()),
            at < self.rows().len() ==> lex_lt(k.key_bytes(), self.rows()[at].0.key_bytes()),
        ensures
            self.lookup(k) is None,
    {
        if exists|i: int| self.is_row_of(i, k) {
            let i = choose|i: int| self.is_row_of(i, k);
            lemma_lex_irreflexive(k.key_bytes());
            if i < at {
                assert(lex_lt(self.rows()[i].0.key_bytes(), k.key_bytes()));
            } else if at < i {
                assert(lex_lt(self.rows()[at].0.key_bytes(), self.rows()[i].0.key_bytes()));
                lemma_lex_transitive(
                    k.key_bytes(),
                    self.rows()[at].0.key_bytes(),
                    self.rows()[i].0.key_bytes(),
                );
            }
        }
    }

    /// An empty table.
    pub fn new() -> (r: Table<K, V>)
        ensures
            r.wf(),
            r.rows() == Seq::<(K, V)>::empty(),
            r.view() == Map::<K, V>::empty(),
    {
        let r: Table<K, V> = Table { rows: Vec::new() };
        assert(r.rows() =~= Seq::<(K, V)>::empty());
        assert(r.view() =~= Map::<K, V>::empty());
        r
    }

    /// The number of rows.
    pub fn len(&self) -> (r: usize)
        ensures
            r == self.rows().len(),
    {
        self.rows.len()
    }

    /// The first row whose key does not sort before `bytes`.
    pub fn lower_bound(&self, bytes: &[u8]) -> (r: usize)
        requires
            self.wf(),
        ensures
            r <= self.rows().len(),
            forall|j: int| 0 <= j < r ==> lex_lt((#[trigger] self.rows()[j]).0.key_bytes(), bytes@),
            forall|j: int|
                r <= j < self.rows().len() ==> !lex_lt(
                    (#[trigger] self.rows()[j]).0.key_bytes(),
                    bytes@,
                ),
    {
        let mut i: usize = 0;
        while i < self.rows.len()
            invariant_except_break
                self.wf(),
                i <= self.rows().len(),
                forall|j: int|
                    0 <= j < i ==> lex_lt((#[trigger] self.rows()[j]).0.key_bytes(), bytes@),
            ensures
                self.wf(),
                i <= self.rows().len(),
                forall|j: int|
                    0 <= j < i ==> lex_lt((#[trigger] self.rows()[j]).0.key_bytes(), bytes@),
                i < self.rows().len() ==> !lex_lt(self.rows()[i as int].0.key_bytes(), bytes@),
            decreases self.rows().len() - i,
        {
            let key: Vec<u8> = self.rows[i].0.to_bytes();
            if !bytes_lt(key.as_slice(), bytes) {
                break;
            }
            i = i + 1;
        }
        proof {
            assert forall|j: int| i <= j < self.rows().len() implies !lex_lt(
                (#[trigger] self.rows()[j]).0.key_bytes(),
                bytes@,
            ) by {
                if i < j {
                    let a = self.rows()[i as int].0.key_bytes();
                    let b = self.rows()[j].0.key_bytes();
                    assert(lex_lt(a, b));
                    if lex_lt(b, bytes@) {
                        lemma_lex_transitive(a, b, bytes@);
                    }
                }
            }
        }
        i
    }

    /// The place of `k`, and whether it is there.
    fn position(&self, k: &K) -> (r: (usize, bool))
        requires
            self.wf(),
        ensures
            r.0 <= self.rows().len(),
            forall|j: int|
                0 <= j < r.0 ==> lex_lt((#[trigger] self.rows()[j]).0.key_bytes(), k.key_bytes()),
            r.1 ==> r.0 < self.rows().len() && self.rows()[r.0 as int].0 == *k && self.lookup(*k)
                == Some(self.rows()[r.0 as int].1),
            !r.1 ==> self.lookup(*k) is None && (forall|j: int|
                r.0 <= j < self.rows().len() ==> lex_lt(
                    k.key_bytes(),
                    (#[trigger] self.rows()[j]).0.key_bytes(),
                )),
    {
        let bytes: Vec<u8> = k.to_bytes();
        let at: usize = self.lower_bound(bytes.as_slice());
        let found: bool = if at < self.rows.len() {
            let here: Vec<u8> = self.rows[at].0.to_bytes();
            !bytes_lt(bytes.as_slice(), here.as_slice())
        } else {
            false
        };
        proof {
            if found {
                let here = self.rows()[at as int].0;
                lemma_lex_total(here.key_bytes(), k.key_bytes());
                K::lemma_key_injective(here, *k);
                self.lemma_row(at as int);
            } else {
                assert forall|j: int| at <= j < self.rows().len() implies lex_lt(
                    k.key_bytes(),
                    (#[trigger] self.rows()[j]).0.key_bytes(),
                ) by {
                    if at < j {
                        lemma_lex_transitive(
                            k.key_bytes(),
                            self.rows()[at as int].0.key_bytes(),
                            self.rows()[j].0.key_bytes(),
                        );
                    }
                }
                self.lemma_absent(*k, at as int);
            }
        }
        (at, found)
    }

    /// The value under `k`, lent.
    pub fn get_ref(&self, k: &K) -> (r: Option<&V>)
        requires
            self.wf(),
        ensures
            match r {
                Some(v) => self.lookup(*k) == Some(*v),
                None => self.lookup(*k) is None,
            },
    {
        let (at, found) = self.position(k);
        if found {
            Some(&self.rows[at].1)
        } else {
            None
        }
    }

    /// Puts `v` under `k`, in place of what was there.
    pub fn insert(&mut self, k: K, v: V)
        requires
            old(self).wf(),
        ensures
            final(self).wf(),
            final(self).view() == old(self).view().insert(k, v),
            forall|f: spec_fn(K, V) -> int| #[trigger]
                final(self).total(f) == old(self).total(f) - old(self).part(k, f) + f(k, v),
    {
        let (at, found) = self.position(&k);
        let ghost before = self.rows();
        if found {
            self.rows.set(at, (k, v));
            assert(self.rows() == before.update(at as int, (k, v)));
        } else {
            self.rows.insert(at, (k, v));
            assert(self.rows() == before.insert(at as int, (k, v)));
        }
        proof {
            assert(self.rows()[at as int] == (k, v));
            assert forall|i: int, j: int| 0 <= i < j < self.rows().len() implies lex_lt(
                (#[trigger] self.rows()[i]).0.key_bytes(),
                (#[trigger] self.rows()[j]).0.key_bytes(),
            ) by {
                if found {
                    assert(self.rows()[i].0 == before[i].0);
                    assert(self.rows()[j].0 == before[j].0);
                } else {
                    let a = if i < at { i } else { i - 1 };
                    let b = if j < at { j } else { j - 1 };
                    if i != at {
                        assert(self.rows()[i] == before[a]);
                    }
                    if j != at {
                        assert(self.rows()[j] == before[b]);
                    }
                }
            }
            let now = *self;
            let was = *old(self);
            assert forall|q: K| #[trigger] now.lookup(q) == (if q == k {
                Some(v)
            } else {
                was.lookup(q)
            }) by {
                if q == k {
                    now.lemma_row(at as int);
                } else if was.lookup(q) is Some {
                    let i = was.lemma_has_row(q);
                    let i2 = if found || i < at { i } else { i + 1 };
                    assert(now.rows()[i2] == was.rows()[i]);
                    now.lemma_row(i2);
                } else if now.lookup(q) is Some {
                    let i2 = now.lemma_has_row(q);
                    let i = if found || i2 < at { i2 } else { i2 - 1 };
                    assert(now.rows()[i2] == was.rows()[i]);
                    was.lemma_row(i);
                }
            }
            lemma_same_lookups(now, was.view().insert(k, v));
            assert forall|f: spec_fn(K, V) -> int| #[trigger]
                self.total(f) == old(self).total(f) - old(self).part(k, f) + f(k, v) by {
                let front = before.take(at as int);
                let back = if found {
                    before.skip(at as int + 1)
                } else {
                    before.skip(at as int)
                };
                assert(self.rows() =~= front + seq![(k, v)] + back);
                lemma_total_split(front + seq![(k, v)], back, f);
                lemma_total_split(front, seq![(k, v)], f);
                lemma_total_one(k, v, f);
                if found {
                    let u = before[at as int].1;
                    assert(before =~= front + seq![(k, u)] + back);
                    lemma_total_split(front + seq![(k, u)], back, f);
                    lemma_total_split(front, seq![(k, u)], f);
                    lemma_total_one(k, u, f);
                } else {
                    assert(before =~= front + back);
                    lemma_total_split(front, back, f);
                }
            }
        }
    }

    /// Takes away what is under `k`.
    pub fn remove(&mut self, k: &K) -> (r: Option<V>)
        requires
            old(self).wf(),
        ensures
            final(self).wf(),
            r == old(self).lookup(*k),
            final(self).view() == old(self).view().remove(*k),
            r is None ==> final(self).rows() == old(self).rows(),
            forall|f: spec_fn(K, V) -> int| #[trigger]
                final(self).total(f) == old(self).total(f) - old(self).part(*k, f),
    {
        let (at, found) = self.position(k);
        let ghost before = self.rows();
        if !found {
            assert(self.view() =~= self.view().remove(*k));
            return None;
        }
        let (_, v) = self.rows.remove(at);
        proof {
            assert(self.rows() == before.remove(at as int));
            assert forall|i: int, j: int| 0 <= i < j < self.rows().len() implies lex_lt(
                (#[trigger] self.rows()[i]).0.key_bytes(),
                (#[trigger] self.rows()[j]).0.key_bytes(),
            ) by {
                let a = if i < at { i } else { i + 1 };
                let b = if j < at { j } else { j + 1 };
                assert(self.rows()[i] == before[a]);
                assert(self.rows()[j] == before[b]);
            }
            let now = *self;
            let was = *old(self);
            assert forall|q: K| #[trigger] now.lookup(q) == (if q == *k {
                None
            } else {
                was.lookup(q)
            }) by {
                if q == *k {
                    if now.lookup(q) is Some {
                        let i2 = now.lemma_has_row(q);
                        let i = if i2 < at { i2 } else { i2 + 1 };
                        assert(now.rows()[i2] == was.rows()[i]);
                        lemma_lex_irreflexive(q.key_bytes());
                        if i < at {
                            assert(lex_lt(was.rows()[i].0.key_bytes(), was.rows()[at as int].0.key_bytes()));
                        } else {
                            assert(lex_lt(was.rows()[at as int].0.key_bytes(), was.rows()[i].0.key_bytes()));
                        }
                    }
                } else if was.lookup(q) is Some {
                    let i = was.lemma_has_row(q);
                    let i2 = if i < at { i } else { i - 1 };
                    assert(now.rows()[i2] == was.rows()[i]);
                    now.lemma_row(i2);
                } else if now.lookup(q) is Some {
                    let i2 = now.lemma_has_row(q);
                    let i = if i2 < at { i2 } else { i2 + 1 };
                    assert(now.rows()[i2] == was.rows()[i]);
                    was.lemma_row(i);
                }
            }
            lemma_same_lookups(now, was.view().remove(*k));
            assert forall|f: spec_fn(K, V) -> int| #[trigger]
                self.total(f) == old(self).total(f) - old(self).part(*k, f) by {
                let front = before.take(at as int);
                let back = before.skip(at as int + 1);
                assert(self.rows() =~= front + back);
                lemma_total_split(front, back, f);
                assert(before =~= front + seq![(*k, v)] + back);
                lemma_total_split(front + seq![(*k, v)], back, f);
                lemma_total_split(front, seq![(*k, v)], f);
                lemma_total_one(*k, v, f);
            }
        }
        Some(v)
    }
}

impl<K: TableKey, V: Copy> Table<K, V> {
    /// Row `i`.
    pub fn row(&self, i: usize) -> (r: (K, V))
        requires
            i < self.rows().len(),
        ensures
            r == self.rows()[i as int],
    {
        self.rows[i]
    }

    /// The value under `k`.
    pub fn get(&self, k: &K) -> (r: Option<V>)
        requires
            self.wf(),
        ensures
            r == self.lookup(*k),
    {
        let (at, found) = self.position(k);
        if found {
            Some(self.rows[at].1)
        } else {
            None
        }
    }
}

/// A table holds a map when every lookup agrees with it.
proof fn lemma_same_lookups<K: TableKey, V>(t: Table<K, V>, m: Map<K, V>)
    requires
        forall|q: K| #[trigger] t.lookup(q) == (if m.dom().contains(q) {
            Some(m[q])
        } else {
            None
        }),
    ensures
        t.view() == m,
{
    assert forall|q: K|
        #![trigger t.view().dom().contains(q)]
        #![trigger m.dom().contains(q)]
        t.view().dom().contains(q) == m.dom().contains(q) by {
        let found = t.lookup(q);
    }
    assert forall|q: K|
        #![trigger t.view()[q]]
        #![trigger m[q]]
        m.dom().contains(q) implies t.view()[q] == m[q] by {
        let found = t.lookup(q);
    }
    assert(t.view() =~= m);
}

} // verus!
