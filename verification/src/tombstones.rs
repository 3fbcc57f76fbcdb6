//! Tombstones: markers that delete a range of rows of a partition as of a
//! merge timestamp.

use vstd::prelude::*;
use std::cmp::Ordering;
use std::sync::Arc;
use crate::column::read_value;
use crate::column::value_at;
use crate::column::ColumnData;
use crate::column::ColumnView;
use crate::column::ValueView;
use crate::pk::compare_values;
use crate::pk::value_order;
use crate::pk::PkOrder;
use crate::row::RowColumnIter;
use crate::row::RowData;
use crate::schema::ColumnSchema;
use crate::schema::TableSchema;
use crate::time::MergeTimestamp;

verus! {

/// Which bounds a tombstone has, and whether they belong to its range: bit 0
/// says that it has a lower bound, bit 1 that the lower bound is inclusive,
/// bit 2 that it has an upper bound, bit 3 that the upper bound is inclusive.
#[derive(Copy, Clone, Debug, PartialEq, Eq, Structural)]
pub struct TombStoneFlags(pub u8);

impl TombStoneFlags {
    pub open spec fn spec_has_lower_bound(&self) -> bool {
        self.0 % 2 == 1
    }

    pub open spec fn spec_lower_bound_inclusive(&self) -> bool {
        self.0 / 2 % 2 == 1
    }

    pub open spec fn spec_has_upper_bound(&self) -> bool {
        self.0 / 4 % 2 == 1
    }

    pub open spec fn spec_upper_bound_inclusive(&self) -> bool {
        self.0 / 8 % 2 == 1
    }

    /// The tombstone has a lower bound.
    #[verifier::when_used_as_spec(spec_has_lower_bound)]
    pub fn has_lower_bound(&self) -> (r: bool)
        ensures
            r == self.spec_has_lower_bound(),
    {
        let bits: u8 = self.0;
        assert((bits & 1 != 0) == (bits % 2 == 1)) by (bit_vector);
        self.0 & 1 != 0
    }

    /// A row that is equal to the lower bound lies in the range.
    #[verifier::when_used_as_spec(spec_lower_bound_inclusive)]
    pub fn lower_bound_inclusive(&self) -> (r: bool)
        ensures
            r == self.spec_lower_bound_inclusive(),
    {
        let bits: u8 = self.0;
        assert((bits & 2 != 0) == (bits / 2 % 2 == 1)) by (bit_vector);
        self.0 & 2 != 0
    }

    /// The tombstone has an upper bound.
    #[verifier::when_used_as_spec(spec_has_upper_bound)]
    pub fn has_upper_bound(&self) -> (r: bool)
        ensures
            r == self.spec_has_upper_bound(),
    {
        let bits: u8 = self.0;
        assert((bits & 4 != 0) == (bits / 4 % 2 == 1)) by (bit_vector);
        self.0 & 4 != 0
    }

    /// A row that is equal to the upper bound lies in the range.
    #[verifier::when_used_as_spec(spec_upper_bound_inclusive)]
    pub fn upper_bound_inclusive(&self) -> (r: bool)
        ensures
            r == self.spec_upper_bound_inclusive(),
    {
        let bits: u8 = self.0;
        assert((bits & 8 != 0) == (bits / 8 % 2 == 1)) by (bit_vector);
        self.0 & 8 != 0
    }
}

/// The values that a partial key's bytes hold from `offs` on, one for each
/// primary key column from the `i`-th on, until the bytes or the columns end;
/// `None` where the bytes do not hold a value of a column's type.
pub open spec fn key_values(pk_columns: Seq<ColumnSchema>, s: Seq<u8>, offs: int, i: int) -> Option<
    Seq<ValueView>,
>
    decreases pk_columns.len() - i,
{
    if i < 0 || i >= pk_columns.len() || offs >= s.len() {
        Some(Seq::empty())
    } else {
        match value_at(pk_columns[i].tpe, s, offs) {
            Some((v, next)) => match key_values(pk_columns, s, next, i + 1) {
                Some(rest) => Some(seq![v] + rest),
                None => None,
            },
            None => None,
        }
    }
}

/// The order of a partial key's values to the values of a row's first
/// columns, from the place `from` on: that of the first place in which they
/// differ.
pub open spec fn prefix_order(values: Seq<ValueView>, columns: Seq<ColumnView>, from: int) -> PkOrder
    decreases values.len() - from,
{
    if from < 0 || from >= values.len() {
        PkOrder::Equal
    } else {
        let here = value_order(values[from], columns[from].value.unwrap());
        if here != PkOrder::Equal {
            here
        } else {
            prefix_order(values, columns, from + 1)
        }
    }
}

/// The values of the first primary key columns of a row, one after the
/// other as they stand in a row's buffer.
pub struct PartialClusterKey<'a> {
    pub schema: Arc<TableSchema>,
    pub buf: &'a [u8],
}

impl<'a> PartialClusterKey<'a> {
    /// The bytes hold values of the first primary key columns.
    pub open spec fn wf(&self) -> bool {
        key_values(self.schema.pk_columns@, self.buf@, 0, 0) is Some
    }

    /// The values of the key.
    pub open spec fn values(&self) -> Seq<ValueView> {
        key_values(self.schema.pk_columns@, self.buf@, 0, 0).unwrap()
    }

    /// The row has a value in each column that the key has a value for.
    pub open spec fn covers(&self, row: &RowData) -> bool {
        &&& row.wf()
        &&& row.spec_columns().len() >= self.values().len()
        &&& forall|i: int|
            0 <= i < self.values().len() ==> (#[trigger] row.spec_columns()[i]).value is Some
    }

    /// Checks that the bytes hold values of the first primary key columns.
    pub fn validate(&self) -> (r: bool)
        ensures
            r == self.wf(),
    {
        let ghost pk = self.schema.pk_columns@;
        let ghost s = self.buf@;
        let mut offs: usize = 0;
        let mut i: usize = 0;
        while i < self.schema.pk_columns.len() && offs < self.buf.len()
            invariant
                pk == self.schema.pk_columns@,
                s == self.buf@,
                i <= pk.len(),
                key_values(pk, s, 0, 0) is Some <==> key_values(pk, s, offs as int, i as int)
                    is Some,
            decreases pk.len() - i,
        {
            match read_value(self.schema.pk_columns[i].tpe, self.buf, offs) {
                Some((_, next)) => {
                    offs = next;
                },
                None => {
                    return false;
                },
            }
            i = i + 1;
        }
        true
    }

    /// How the key stands to the first columns of `row`.
    pub fn order_to(&self, row: &RowData) -> (r: PkOrder)
        requires
            self.wf(),
            self.covers(row),
        ensures
            r == prefix_order(self.values(), row.spec_columns(), 0),
    {
        let ghost pk = self.schema.pk_columns@;
        let ghost s = self.buf@;
        let ghost values = self.values();
        let ghost columns = row.spec_columns();
        let ghost mut seen: int = 0;
        let mut iter = RowColumnIter::new(row);
        let mut offs: usize = 0;
        let mut i: usize = 0;
        while i < self.schema.pk_columns.len() && offs < self.buf.len()
            invariant
                pk == self.schema.pk_columns@,
                s == self.buf@,
                values == self.values(),
                columns == row.spec_columns(),
                self.wf(),
                self.covers(row),
                iter.wf(),
                i <= pk.len(),
                seen == i,
                seen <= values.len(),
                iter.remaining() == columns.skip(seen),
                key_values(pk, s, offs as int, i as int) == Some(values.skip(seen)),
                prefix_order(values, columns, 0) == prefix_order(values, columns, seen),
            decreases pk.len() - i,
        {
            let ghost rest = key_values(pk, s, offs as int, i as int).unwrap();
            let key_value = read_value(self.schema.pk_columns[i].tpe, self.buf, offs);
            let row_column = iter.next();
            proof {
                let (v, next) = value_at(pk[i as int].tpe, s, offs as int).unwrap();
                let tail = key_values(pk, s, next, i + 1).unwrap();
                assert(rest == seq![v] + tail);
                assert(rest.len() >= 1);
                assert(values.skip(seen)[0] == values[seen]);
                assert(rest[0] == v);
                assert(values.skip(seen).skip(1) =~= values.skip(seen + 1));
                assert((seq![v] + tail).skip(1) =~= tail);
                assert(columns.skip(seen)[0] == columns[seen]);
                assert(columns.skip(seen).skip(1) =~= columns.skip(seen + 1));
            }
            match (key_value, row_column) {
                (Some((v, next)), Some(c)) => {
                    match c.value {
                        Some(w) => {
                            let here = compare_values(&v, &w);
                            if here != PkOrder::Equal {
                                return here;
                            }
                        },
                        None => {},
                    }
                    offs = next;
                },
                _ => {},
            }
            i = i + 1;
            proof {
                seen = seen + 1;
            }
        }
        proof {
            assert(values.skip(seen).len() == 0);
        }
        PkOrder::Equal
    }

    /// Compares the key with the first columns of `row`.
    pub fn compare_to(&self, row: &RowData) -> (r: Ordering)
        requires
            self.wf(),
            self.covers(row),
        ensures
            r == (match prefix_order(self.values(), row.spec_columns(), 0) {
                PkOrder::Less => Ordering::Less,
                PkOrder::Equal => Ordering::Equal,
                PkOrder::Greater => Ordering::Greater,
            }),
    {
        match self.order_to(row) {
            PkOrder::Less => Ordering::Less,
            PkOrder::Equal => Ordering::Equal,
            PkOrder::Greater => Ordering::Greater,
        }
    }
}

/// A marker that deletes the rows of a partition between two bounds, as of
/// its timestamp. A bound that is missing leaves the range open to that side.
pub struct TombStone<'a> {
    pub schema: Arc<TableSchema>,
    pub timestamp: MergeTimestamp,
    pub flags: TombStoneFlags,
    pub lower_bound: Option<PartialClusterKey<'a>>,
    pub upper_bound: Option<PartialClusterKey<'a>>,
}

impl<'a> TombStone<'a> {
    /// The bounds are well formed, and the row has a value wherever a bound
    /// has one.
    pub open spec fn fits(&self, row: &RowData) -> bool {
        &&& self.lower_bound matches Some(key) ==> key.wf() && key.covers(row)
        &&& self.upper_bound matches Some(key) ==> key.wf() && key.covers(row)
    }

    /// The row is not below the lower bound: there is none, the bound is
    /// less than the row, or it is equal to the row and inclusive.
    pub open spec fn above_lower(&self, row: &RowData) -> bool {
        match self.lower_bound {
            Some(key) => {
                let order = prefix_order(key.values(), row.spec_columns(), 0);
                order == PkOrder::Less || (order == PkOrder::Equal
                    && self.flags.lower_bound_inclusive())
            },
            None => true,
        }
    }

    /// The row is not above the upper bound: there is none, the bound is
    /// greater than the row, or it is equal to the row and inclusive.
    pub open spec fn below_upper(&self, row: &RowData) -> bool {
        match self.upper_bound {
            Some(key) => {
                let order = prefix_order(key.values(), row.spec_columns(), 0);
                order == PkOrder::Greater || (order == PkOrder::Equal
                    && self.flags.upper_bound_inclusive())
            },
            None => true,
        }
    }

    /// The row lies in the range of the tombstone.
    pub fn matches(&self, row: &RowData) -> (r: bool)
        requires
            self.fits(row),
        ensures
            r == (self.above_lower(row) && self.below_upper(row)),
    {
        match &self.lower_bound {
            Some(key) => {
                match key.order_to(row) {
                    PkOrder::Greater => {
                        return false;
                    },
                    PkOrder::Equal => {
                        if !self.flags.lower_bound_inclusive() {
                            return false;
                        }
                    },
                    PkOrder::Less => {},
                }
            },
            None => {},
        }
        match &self.upper_bound {
            Some(key) => {
                match key.order_to(row) {
                    PkOrder::Less => {
                        return false;
                    },
                    PkOrder::Equal => {
                        if !self.flags.upper_bound_inclusive() {
                            return false;
                        }
                    },
                    PkOrder::Greater => {},
                }
            },
            None => {},
        }
        true
    }

    /// The tombstone hides the column `col` of `row`: the row lies in its
    /// range, and the column was not written after it.
    pub fn deletes(&self, row: &RowData, col: &ColumnData) -> (r: bool)
        requires
            self.fits(row),
        ensures
            r == (self.above_lower(row) && self.below_upper(row) && self.timestamp.ticks
                >= col.timestamp.ticks),
    {
        self.matches(row) && self.timestamp.ticks >= col.timestamp.ticks
    }
}

} // verus!
