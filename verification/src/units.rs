//! Assets and amounts.

use vstd::prelude::*;

use crate::table::{seq_total, Table};

verus! {

/// An asset, known by its number. Unit 0 is bitcoin, counted in millisatoshi.
#[derive(Debug, Clone, Copy, PartialEq, Eq, PartialOrd, Ord, Hash, Structural)]
pub struct AmountUnit {
    pub id: u64,
}

impl AmountUnit {
    /// The unit with the given number.
    pub fn new_custom(id: u64) -> (r: AmountUnit)
        ensures
            r == (AmountUnit { id }),
    {
        AmountUnit { id }
    }

    /// Bitcoin.
    pub fn bitcoin() -> (r: AmountUnit)
        ensures
            r == (AmountUnit { id: 0 }),
    {
        AmountUnit { id: 0 }
    }
}

/// A quantity of some unit, in that unit's base denomination.
#[derive(Debug, Clone, Copy, PartialEq, Eq, PartialOrd, Ord, Hash, Structural)]
pub struct Amount {
    pub msats: u64,
}

impl Amount {
    /// The amount of that many base units.
    pub fn from_msats(msats: u64) -> (r: Amount)
        ensures
            r == (Amount { msats }),
    {
        Amount { msats }
    }
}

/// An amount as a number of its own.
pub open spec fn amount_value() -> spec_fn(AmountUnit, Amount) -> int {
    |u: AmountUnit, a: Amount| a.msats as int
}

/// The sum of `value` over units.
pub open spec fn sum_over(units: Seq<AmountUnit>, value: spec_fn(AmountUnit) -> int) -> int
    decreases units.len(),
{
    if units.len() == 0 {
        0
    } else {
        sum_over(units.drop_last(), value) + value(units.last())
    }
}

/// Where one value grows and the others stay, the sum grows by as much.
proof fn lemma_sum_over_grows(
    units: Seq<AmountUnit>,
    before: spec_fn(AmountUnit) -> int,
    after: spec_fn(AmountUnit) -> int,
    unit: AmountUnit,
    more: int,
)
    requires
        units.no_duplicates(),
        forall|u: AmountUnit| u != unit ==> #[trigger] after(u) == before(u),
        after(unit) == before(unit) + more,
    ensures
        sum_over(units, after) == sum_over(units, before) + (if units.contains(unit) {
            more
        } else {
            0
        }),
    decreases units.len(),
{
    if units.len() > 0 {
        let front = units.drop_last();
        let last = units.last();
        assert(units =~= front.push(last));
        lemma_sum_over_grows(front, before, after, unit, more);
        if last == unit {
            assert(units[units.len() - 1] == unit);
            if front.contains(unit) {
                let i = choose|i: int| 0 <= i < front.len() && front[i] == unit;
                assert(units[i] == units[units.len() - 1]);
            }
        } else {
            assert(units.contains(unit) == front.contains(unit)) by {
                if units.contains(unit) {
                    let i = choose|i: int| 0 <= i < units.len() && units[i] == unit;
                    assert(front[i] == unit);
                }
                if front.contains(unit) {
                    let i = choose|i: int| 0 <= i < front.len() && front[i] == unit;
                    assert(units[i] == unit);
                }
            }
        }
    }
}

/// Where no unit has a value, the sum is zero.
proof fn lemma_sum_over_nothing(units: Seq<AmountUnit>, value: spec_fn(AmountUnit) -> int)
    requires
        forall|u: AmountUnit| #[trigger] value(u) == 0,
    ensures
        sum_over(units, value) == 0,
    decreases units.len(),
{
    if units.len() > 0 {
        lemma_sum_over_nothing(units.drop_last(), value);
    }
}

/// Equal values have equal sums.
proof fn lemma_same_sum(
    units: Seq<AmountUnit>,
    a: spec_fn(AmountUnit) -> int,
    b: spec_fn(AmountUnit) -> int,
)
    requires
        forall|u: AmountUnit| #[trigger] a(u) == b(u),
    ensures
        sum_over(units, a) == sum_over(units, b),
    decreases units.len(),
{
    if units.len() > 0 {
        lemma_same_sum(units.drop_last(), a, b);
    }
}

/// The amount under `unit` in rows.
spec fn amount_in(rows: Seq<(AmountUnit, Amount)>, unit: AmountUnit) -> int
    decreases rows.len(),
{
    if rows.len() == 0 {
        0
    } else if rows.last().0 == unit {
        rows.last().1.msats as int
    } else {
        amount_in(rows.drop_last(), unit)
    }
}

/// Whether no two rows are of the same unit.
spec fn distinct_units(rows: Seq<(AmountUnit, Amount)>) -> bool {
    forall|i: int, j: int|
        0 <= i < j < rows.len() ==> (#[trigger] rows[i]).0 != (#[trigger] rows[j]).0
}

/// The amount under the unit of a row is that row's, and that of a unit without
/// a row is zero.
proof fn lemma_amount_in(rows: Seq<(AmountUnit, Amount)>, unit: AmountUnit)
    requires
        distinct_units(rows),
    ensures
        forall|i: int|
            0 <= i < rows.len() && (#[trigger] rows[i]).0 == unit ==> amount_in(rows, unit)
                == rows[i].1.msats,
        (forall|i: int| 0 <= i < rows.len() ==> (#[trigger] rows[i]).0 != unit) ==> amount_in(
            rows,
            unit,
        ) == 0,
    decreases rows.len(),
{
    if rows.len() > 0 {
        let front = rows.drop_last();
        lemma_amount_in(front, unit);
        assert forall|i: int| 0 <= i < rows.len() && (#[trigger] rows[i]).0
            == unit implies amount_in(rows, unit) == rows[i].1.msats by {
            if i < front.len() {
                assert(front[i] == rows[i]);
                assert(rows[i].0 != rows[rows.len() - 1].0);
            }
        }
        if forall|i: int| 0 <= i < rows.len() ==> (#[trigger] rows[i]).0 != unit {
            assert(rows[rows.len() - 1].0 != unit);
            assert forall|i: int| 0 <= i < front.len() implies (#[trigger] front[i]).0 != unit by {
                assert(front[i] == rows[i]);
            }
        }
    }
}

/// The total of rows is the sum over any units that cover them.
proof fn lemma_total_over_units(rows: Seq<(AmountUnit, Amount)>, units: Seq<AmountUnit>)
    requires
        distinct_units(rows),
        units.no_duplicates(),
        forall|i: int| 0 <= i < rows.len() ==> units.contains((#[trigger] rows[i]).0),
    ensures
        seq_total(rows, amount_value()) == sum_over(units, |u: AmountUnit| amount_in(rows, u)),
    decreases rows.len(),
{
    let now = |u: AmountUnit| amount_in(rows, u);
    if rows.len() == 0 {
        lemma_sum_over_nothing(units, now);
    } else {
        let front = rows.drop_last();
        let (unit, amount) = rows.last();
        let was = |u: AmountUnit| amount_in(front, u);
        assert forall|i: int| 0 <= i < front.len() implies units.contains(
            (#[trigger] front[i]).0,
        ) && front[i].0 != unit by {
            assert(front[i] == rows[i]);
            assert(rows[i].0 != rows[rows.len() - 1].0);
        }
        assert forall|i: int, j: int| 0 <= i < j < front.len() implies (#[trigger] front[i]).0 != (
        #[trigger] front[j]).0 by {
            assert(rows[i].0 != rows[j].0);
        }
        lemma_total_over_units(front, units);
        lemma_amount_in(front, unit);
        assert(units.contains(rows[rows.len() - 1].0));
        lemma_sum_over_grows(units, was, now, unit, amount.msats as int);
    }
}

/// Amounts of several units at once. A unit of which there is nothing is left
/// out.
#[derive(Debug, Clone, PartialEq, Eq)]
pub struct Amounts {
    entries: Table<AmountUnit, Amount>,
}

impl Amounts {
    /// How much there is of `unit`.
    pub closed spec fn of(self, unit: AmountUnit) -> int {
        match self.entries.lookup(unit) {
            Some(amount) => amount.msats as int,
            None => 0,
        }
    }

    /// All amounts taken together, whatever their units.
    pub closed spec fn sum(self) -> int {
        self.entries.total(amount_value())
    }

    /// The entries are a table, and none of them is zero.
    pub closed spec fn wf(self) -> bool {
        &&& self.entries.wf()
        &&& forall|u: AmountUnit| #[trigger]
            self.entries.lookup(u) matches Some(amount) ==> amount.msats > 0
    }

    /// All amounts taken together are the amounts per unit, added up over any
    /// units that leave none of them out.
    pub proof fn law_sum_is_over_units(self, units: Seq<AmountUnit>)
        requires
            self.wf(),
            units.no_duplicates(),
            forall|u: AmountUnit| #[trigger] self.of(u) != 0 ==> units.contains(u),
        ensures
            self.sum() == sum_over(units, |u: AmountUnit| self.of(u)),
    {
        let rows = self.entries.rows();
        assert forall|i: int, j: int| 0 <= i < j < rows.len() implies (#[trigger] rows[i]).0 != (
        #[trigger] rows[j]).0 by {
            self.entries.lemma_rows_distinct(i, j);
        }
        assert forall|i: int| 0 <= i < rows.len() implies units.contains(
            (#[trigger] rows[i]).0,
        ) by {
            self.entries.lemma_row(i);
            let of = self.of(rows[i].0);
        }
        lemma_total_over_units(rows, units);
        assert forall|u: AmountUnit| #[trigger] amount_in(rows, u) == self.of(u) by {
            lemma_amount_in(rows, u);
            match self.entries.lookup(u) {
                Some(_) => {
                    let i = self.entries.lemma_has_row(u);
                },
                None => {
                    assert forall|i: int| 0 <= i < rows.len() implies (#[trigger] rows[i]).0
                        != u by {
                        self.entries.lemma_row(i);
                    }
                },
            }
        }
        lemma_same_sum(
            units,
            |u: AmountUnit| amount_in(rows, u),
            |u: AmountUnit| self.of(u),
        );
    }

    /// Nothing.
    pub fn zero() -> (r: Amounts)
        ensures
            r.wf(),
            forall|u: AmountUnit| r.of(u) == 0,
            r.sum() == 0,
    {
        let r = Amounts { entries: Table::new() };
        assert forall|u: AmountUnit| #[trigger] r.entries.lookup(u) is None by {
            assert(!r.entries.view().dom().contains(u));
        }
        r
    }

    /// `amount` of `unit`, and nothing else.
    pub fn new_custom(unit: AmountUnit, amount: Amount) -> (r: Amounts)
        ensures
            r.wf(),
            forall|u: AmountUnit|
                r.of(u) == (if u == unit {
                    amount.msats as int
                } else {
                    0
                }),
            r.sum() == amount.msats,
    {
        let mut r = Amounts::zero();
        r.add_unit(amount, unit);
        r
    }

    /// Puts `amount` in place of what there is of `unit`, where there is nothing
    /// of it yet.
    fn add_unit(&mut self, amount: Amount, unit: AmountUnit)
        requires
            old(self).wf(),
            old(self).of(unit) == 0,
        ensures
            final(self).wf(),
            forall|u: AmountUnit|
                final(self).of(u) == (if u == unit {
                    amount.msats as int
                } else {
                    old(self).of(u)
                }),
            final(self).sum() == old(self).sum() + amount.msats,
    {
        let ghost all = amount_value();
        if amount.msats > 0 {
            assert(self.entries.part(unit, all) == 0);
            self.entries.insert(unit, amount);
            assert(self.entries.total(all) == old(self).entries.total(all) + amount.msats);
        }
        assert forall|u: AmountUnit| #[trigger]
            self.entries.lookup(u) == (if u == unit && amount.msats > 0 {
                Some(amount)
            } else {
                old(self).entries.lookup(u)
            }) by {
        }
    }

    /// Adds `amount` of `unit`; nothing where the sum does not fit.
    pub fn checked_add_unit(self, amount: Amount, unit: AmountUnit) -> (r: Option<Amounts>)
        requires
            self.wf(),
        ensures
            match r {
                Some(s) => s.wf() && s.sum() == self.sum() + amount.msats && (forall|u: AmountUnit|
                    s.of(u) == self.of(u) + (if u == unit {
                        amount.msats as int
                    } else {
                        0
                    })),
                None => self.of(unit) + amount.msats > u64::MAX,
            },
    {
        if amount.msats == 0 {
            return Some(self);
        }
        let present: u64 = match self.entries.get(&unit) {
            Some(held) => held.msats,
            None => 0,
        };
        if present > u64::MAX - amount.msats {
            return None;
        }
        let ghost before = self.entries;
        let mut entries = self.entries;
        entries.insert(unit, Amount { msats: present + amount.msats });
        proof {
            let all = amount_value();
            assert(before.part(unit, all) == present);
            assert(entries.total(all) == before.total(all) + amount.msats);
            assert forall|u: AmountUnit| #[trigger]
                entries.lookup(u) == (if u == unit {
                    Some(Amount { msats: (present + amount.msats) as u64 })
                } else {
                    before.lookup(u)
                }) by {
            }
        }
        Some(Amounts { entries })
    }

    /// How much there is of `unit`; nothing where the unit is left out.
    pub fn get(&self, unit: AmountUnit) -> (r: Option<Amount>)
        requires
            self.wf(),
        ensures
            r == (if self.of(unit) == 0 {
                None::<Amount>
            } else {
                Some(Amount { msats: self.of(unit) as u64 })
            }),
    {
        self.entries.get(&unit)
    }

    /// How many units there is something of.
    pub fn count(&self) -> (r: usize)
        ensures
            r == self.unit_count(),
    {
        self.entries.len()
    }

    /// How many units there is something of.
    pub closed spec fn unit_count(self) -> nat {
        self.entries.rows().len()
    }
}

} // verus!
