//! The order of rows by their primary key.

use vstd::prelude::*;
use std::cmp::Ordering;
use crate::column::ColumnValue;
use crate::column::ColumnView;
use crate::column::ValueView;
use crate::row::header_expiry;
use crate::row::header_timestamp;
use crate::row::in_order;
use crate::row::lemma_column_at_advances;
use crate::row::row_columns;
use crate::row::DetachedRowData;
use crate::row::RowColumnIter;
use crate::row::RowData;
use crate::schema::lemma_first_with_id;
use crate::schema::lemma_key_len_bounds;
use crate::schema::lemma_rank_of_key;
use crate::schema::ColumnSchema;
use crate::schema::PrimaryKeySpec;
use crate::schema::TableSchema;

verus! {

/// How one key stands to another.
#[derive(Copy, Clone, Debug, PartialEq, Eq, Structural)]
pub enum PkOrder {
    Less,
    Equal,
    Greater,
}

impl PkOrder {
    pub open spec fn spec_reverse(self) -> PkOrder {
        match self {
            PkOrder::Less => PkOrder::Greater,
            PkOrder::Equal => PkOrder::Equal,
            PkOrder::Greater => PkOrder::Less,
        }
    }

    /// The order seen from the other side.
    #[verifier::when_used_as_spec(spec_reverse)]
    pub fn reverse(self) -> (r: PkOrder)
        ensures
            r == self.spec_reverse(),
    {
        match self {
            PkOrder::Less => PkOrder::Greater,
            PkOrder::Equal => PkOrder::Equal,
            PkOrder::Greater => PkOrder::Less,
        }
    }

    /// The order as a column with the given direction sees it.
    pub open spec fn directed(self, descending: bool) -> PkOrder {
        if descending {
            self.reverse()
        } else {
            self
        }
    }
}

/// The order of two integers.
pub open spec fn int_order(a: int, b: int) -> PkOrder {
    if a < b {
        PkOrder::Less
    } else if a > b {
        PkOrder::Greater
    } else {
        PkOrder::Equal
    }
}

/// The order of two byte strings from the place `from` on, byte by byte; a
/// string that ends first is the lesser one.
pub open spec fn bytes_order(a: Seq<u8>, b: Seq<u8>, from: int) -> PkOrder
    decreases a.len() - from,
{
    if from < 0 {
        PkOrder::Equal
    } else if from >= a.len() {
        if from >= b.len() {
            PkOrder::Equal
        } else {
            PkOrder::Less
        }
    } else if from >= b.len() {
        PkOrder::Greater
    } else if a[from] < b[from] {
        PkOrder::Less
    } else if a[from] > b[from] {
        PkOrder::Greater
    } else {
        bytes_order(a, b, from + 1)
    }
}

/// The place of a value's type among the types.
pub open spec fn value_rank(v: ValueView) -> int {
    match v {
        ValueView::Boolean(_) => 0,
        ValueView::Int(_) => 1,
        ValueView::BigInt(_) => 2,
        ValueView::Text(_) => 3,
    }
}

/// The order of two values: `false` before `true`, integers by their size,
/// texts byte by byte; values of different types by the place of their type.
pub open spec fn value_order(a: ValueView, b: ValueView) -> PkOrder {
    match (a, b) {
        (ValueView::Boolean(x), ValueView::Boolean(y)) => int_order(
            if x {
                1
            } else {
                0
            },
            if y {
                1
            } else {
                0
            },
        ),
        (ValueView::Int(x), ValueView::Int(y)) => int_order(x as int, y as int),
        (ValueView::BigInt(x), ValueView::BigInt(y)) => int_order(x as int, y as int),
        (ValueView::Text(x), ValueView::Text(y)) => bytes_order(x, y, 0),
        _ => int_order(value_rank(a), value_rank(b)),
    }
}

/// The order of two rows by the key columns from `from` up to `key_len`: that
/// of the first column in which their values differ, reversed where that
/// column sorts descending.
pub open spec fn key_order(
    columns: Seq<ColumnSchema>,
    a: Seq<ColumnView>,
    b: Seq<ColumnView>,
    from: int,
    key_len: int,
) -> PkOrder
    decreases key_len - from,
{
    if from >= key_len {
        PkOrder::Equal
    } else {
        let here = value_order(a[from].value.unwrap(), b[from].value.unwrap());
        if here != PkOrder::Equal {
            here.directed(columns[from].descending())
        } else {
            key_order(columns, a, b, from + 1, key_len)
        }
    }
}

/// The columns start with the key columns of the schema, in the schema's
/// order, and none of these is NULL.
pub open spec fn has_key(schema: &TableSchema, columns: Seq<ColumnView>) -> bool {
    &&& columns.len() >= schema.key_len()
    &&& forall|i: int|
        0 <= i < schema.key_len() ==> (#[trigger] columns[i]).col_id == schema.columns@[i].col_id.0
            && columns[i].value is Some
}

/// The columns are those of a row as the schema asks for it: there is at
/// least one, they start with the key columns, none of which is NULL, and
/// they stand in the order in which a row stores them, no two with one id.
pub open spec fn keyed_columns(schema: &TableSchema, columns: Seq<ColumnView>) -> bool {
    &&& columns.len() > 0
    &&& has_key(schema, columns)
    &&& in_order(schema, columns)
}

/// The bytes hold a row of the schema that starts with its key and keeps its
/// columns in order.
#[verifier::opaque]
pub open spec fn row_keyed(schema: &TableSchema, s: Seq<u8>) -> bool {
    row_columns(schema, s) is Some && keyed_columns(schema, row_columns(schema, s).unwrap())
}

/// How the key of the row in `a` stands to the key of the row in `b`.
#[verifier::opaque]
pub open spec fn rows_order(schema: &TableSchema, a: Seq<u8>, b: Seq<u8>) -> PkOrder {
    key_order(
        schema.columns@,
        row_columns(schema, a).unwrap(),
        row_columns(schema, b).unwrap(),
        0,
        schema.key_len(),
    )
}

/// Each of the rows is a row of the schema that starts with its key.
pub open spec fn all_keyed(schema: &TableSchema, rows: Seq<Seq<u8>>) -> bool {
    forall|i: int| 0 <= i < rows.len() ==> #[trigger] row_keyed(schema, rows[i])
}

/// The rows are in the strict order of their keys: each comes before all
/// that follow it.
pub open spec fn rows_sorted(schema: &TableSchema, rows: Seq<Seq<u8>>) -> bool {
    forall|i: int, j: int|
        0 <= i < j < rows.len() ==> #[trigger] rows_order(schema, rows[i], rows[j])
            == PkOrder::Less
}

/// Compares two byte strings byte by byte.
pub fn compare_bytes(a: &[u8], b: &[u8]) -> (r: PkOrder)
    ensures
        r == bytes_order(a@, b@, 0),
{
    let mut i: usize = 0;
    while i < a.len() && i < b.len()
        invariant
            i <= a@.len(),
            i <= b@.len(),
            bytes_order(a@, b@, 0) == bytes_order(a@, b@, i as int),
        decreases a@.len() - i,
    {
        if a[i] < b[i] {
            return PkOrder::Less;
        }
        if a[i] > b[i] {
            return PkOrder::Greater;
        }
        i = i + 1;
    }
    if i < b.len() {
        PkOrder::Less
    } else if i < a.len() {
        PkOrder::Greater
    } else {
        PkOrder::Equal
    }
}

/// Compares two values.
pub fn compare_values(a: &ColumnValue, b: &ColumnValue) -> (r: PkOrder)
    ensures
        r == value_order(a@, b@),
{
    match (a, b) {
        (ColumnValue::Boolean(x), ColumnValue::Boolean(y)) => {
            if *x == *y {
                PkOrder::Equal
            } else if *y {
                PkOrder::Less
            } else {
                PkOrder::Greater
            }
        },
        (ColumnValue::Int(x), ColumnValue::Int(y)) => {
            if *x < *y {
                PkOrder::Less
            } else if *x > *y {
                PkOrder::Greater
            } else {
                PkOrder::Equal
            }
        },
        (ColumnValue::BigInt(x), ColumnValue::BigInt(y)) => {
            if *x < *y {
                PkOrder::Less
            } else if *x > *y {
                PkOrder::Greater
            } else {
                PkOrder::Equal
            }
        },
        (ColumnValue::Text(x), ColumnValue::Text(y)) => compare_bytes(x.as_bytes(), y.as_bytes()),
        _ => {
            let rank_a = rank_of(a);
            let rank_b = rank_of(b);
            if rank_a < rank_b {
                PkOrder::Less
            } else if rank_a > rank_b {
                PkOrder::Greater
            } else {
                PkOrder::Equal
            }
        },
    }
}

/// The place of a value's type among the types.
fn rank_of(v: &ColumnValue) -> (r: u8)
    ensures
        r == value_rank(v@),
{
    match v {
        ColumnValue::Boolean(_) => 0,
        ColumnValue::Int(_) => 1,
        ColumnValue::BigInt(_) => 2,
        ColumnValue::Text(_) => 3,
    }
}

impl<'a> RowData<'a> {
    /// The row is well formed, starts with its key and keeps its columns in
    /// order.
    pub open spec fn keyed(&self) -> bool {
        self.wf() && keyed_columns(&*self.schema, self.spec_columns())
    }

    /// How this row's key stands to the key of `other`.
    pub open spec fn spec_pk_order(&self, other: &RowData) -> PkOrder {
        key_order(
            self.schema.columns@,
            self.spec_columns(),
            other.spec_columns(),
            0,
            self.schema.key_len(),
        )
    }

    /// Checks that the row starts with the key columns of its schema, none of
    /// them NULL.
    pub fn check_key(&self) -> (r: bool)
        requires
            self.wf(),
        ensures
            r == has_key(&*self.schema, self.spec_columns()),
    {
        let key_len: usize = self.schema.leading_key_columns();
        let ghost all = self.spec_columns();
        let mut iter = RowColumnIter::new(self);
        let mut i: usize = 0;
        while i < key_len
            invariant
                iter.wf(),
                all == self.spec_columns(),
                key_len == self.schema.key_len(),
                key_len <= self.schema.columns@.len(),
                i <= key_len,
                i <= all.len(),
                iter.remaining() == all.skip(i as int),
                forall|j: int|
                    0 <= j < i ==> (#[trigger] all[j]).col_id == self.schema.columns@[j].col_id.0
                        && all[j].value is Some,
            decreases key_len - i,
        {
            match iter.next() {
                Some(c) => {
                    assert(all.skip(i as int)[0] == all[i as int]);
                    if c.col_id.0 != self.schema.columns[i].col_id.0 || c.value.is_none() {
                        return false;
                    }
                    proof {
                        assert(all.skip(i as int).skip(1) =~= all.skip(i + 1));
                    }
                },
                None => {
                    return false;
                },
            }
            i = i + 1;
        }
        true
    }

    /// Checks that the columns of the row stand in the order in which a row
    /// stores them, no two with one id.
    pub fn check_order(&self) -> (r: bool)
        requires
            self.wf(),
        ensures
            r == in_order(&*self.schema, self.spec_columns()),
    {
        let ghost table = &*self.schema;
        let ghost all = self.spec_columns();
        let ghost mut seen: int = 0;
        let key_len = self.schema.leading_key_columns();
        let mut iter = RowColumnIter::new(self);
        let mut last: Option<u128> = None;
        loop
            invariant
                iter.wf(),
                table == &*self.schema,
                key_len == table.key_len(),
                all == self.spec_columns(),
                0 <= seen <= all.len(),
                iter.remaining() == all.skip(seen),
                seen == 0 <==> last is None,
                last matches Some(rank) ==> rank == table.rank(all[seen - 1].col_id),
                forall|i: int, j: int|
                    0 <= i < j < seen ==> table.rank((#[trigger] all[i]).col_id) < table.rank(
                        (#[trigger] all[j]).col_id,
                    ),
            decreases iter.remaining().len(),
        {
            match iter.next() {
                Some(c) => {
                    assert(all.skip(seen)[0] == all[seen]);
                    let rank = self.schema.rank_among(key_len, c.col_id);
                    match last {
                        Some(before) => {
                            if rank <= before {
                                assert(!(table.rank(all[seen - 1].col_id) < table.rank(
                                    all[seen].col_id,
                                )));
                                return false;
                            }
                        },
                        None => {},
                    }
                    last = Some(rank);
                    proof {
                        assert(all.skip(seen).skip(1) =~= all.skip(seen + 1));
                        assert forall|i: int, j: int| 0 <= i < j < seen + 1 implies table.rank(
                            (#[trigger] all[i]).col_id,
                        ) < table.rank((#[trigger] all[j]).col_id) by {
                            if j == seen && i < seen - 1 {
                                assert(table.rank(all[i].col_id) < table.rank(
                                    all[seen - 1].col_id,
                                ));
                            }
                        }
                        seen = seen + 1;
                    }
                },
                None => {
                    return true;
                },
            }
        }
    }

    /// Checks that the buffer holds a row of the schema that starts with its
    /// key and keeps its columns in order.
    pub fn is_keyed(&self) -> (r: bool)
        ensures
            r == self.keyed(),
            r == row_keyed(&*self.schema, self.buf@),
    {
        proof {
            reveal(row_keyed);
        }
        match self.validate() {
            Ok(_) => {
                let start: usize = if self.flags().has_row_expiry() {
                    13
                } else {
                    9
                };
                proof {
                    if start < self.buf@.len() {
                        lemma_column_at_advances(
                            &*self.schema,
                            self.buf@,
                            start as int,
                            header_timestamp(self.buf@),
                            header_expiry(self.buf@),
                        );
                    }
                }
                self.buf.len() > start && self.check_key() && self.check_order()
            },
            Err(_) => false,
        }
    }

    /// Compares this row with `other` by the key columns of the schema, in
    /// the schema's order; a cluster key that sorts descending reverses the
    /// order of its values.
    pub fn pk_order(&self, other: &RowData) -> (r: PkOrder)
        requires
            self.keyed(),
            other.keyed(),
            self.schema == other.schema,
        ensures
            r == self.spec_pk_order(other),
    {
        let key_len: usize = self.schema.leading_key_columns();
        let ghost mine = self.spec_columns();
        let ghost theirs = other.spec_columns();
        let ghost columns = self.schema.columns@;
        let mut iter_self = RowColumnIter::new(self);
        let mut iter_other = RowColumnIter::new(other);
        let mut i: usize = 0;
        while i < key_len
            invariant
                iter_self.wf(),
                iter_other.wf(),
                mine == self.spec_columns(),
                theirs == other.spec_columns(),
                columns == self.schema.columns@,
                has_key(&*self.schema, mine),
                has_key(&*self.schema, theirs),
                key_len == self.schema.key_len(),
                key_len <= columns.len(),
                i <= key_len,
                iter_self.remaining() == mine.skip(i as int),
                iter_other.remaining() == theirs.skip(i as int),
                key_order(columns, mine, theirs, 0, key_len as int) == key_order(
                    columns,
                    mine,
                    theirs,
                    i as int,
                    key_len as int,
                ),
            decreases key_len - i,
        {
            let descending = match self.schema.columns[i].pk_spec {
                PrimaryKeySpec::ClusterKey(ascending) => !ascending,
                _ => false,
            };
            let col_self = iter_self.next();
            let col_other = iter_other.next();
            proof {
                assert(mine.skip(i as int)[0] == mine[i as int]);
                assert(theirs.skip(i as int)[0] == theirs[i as int]);
                assert(mine.skip(i as int).skip(1) =~= mine.skip(i + 1));
                assert(theirs.skip(i as int).skip(1) =~= theirs.skip(i + 1));
            }
            match (col_self, col_other) {
                (Some(c1), Some(c2)) => match (c1.value, c2.value) {
                    (Some(v1), Some(v2)) => {
                        let here = compare_values(&v1, &v2);
                        if here != PkOrder::Equal {
                            return if descending {
                                here.reverse()
                            } else {
                                here
                            };
                        }
                    },
                    _ => {},
                },
                _ => {},
            }
            i = i + 1;
        }
        PkOrder::Equal
    }

    /// Compares this row with `other` by primary key.
    pub fn compare_by_pk(&self, other: &RowData) -> (r: Ordering)
        requires
            self.keyed(),
            other.keyed(),
            self.schema == other.schema,
        ensures
            r == (match self.spec_pk_order(other) {
                PkOrder::Less => Ordering::Less,
                PkOrder::Equal => Ordering::Equal,
                PkOrder::Greater => Ordering::Greater,
            }),
    {
        match self.pk_order(other) {
            PkOrder::Less => Ordering::Less,
            PkOrder::Equal => Ordering::Equal,
            PkOrder::Greater => Ordering::Greater,
        }
    }
}

/// Two byte strings are in the order `Equal` from `from` on exactly where
/// they are of one length and agree from there on.
pub proof fn lemma_bytes_order_equal(a: Seq<u8>, b: Seq<u8>, from: int)
    requires
        0 <= from,
    ensures
        bytes_order(a, b, from) == PkOrder::Equal <==> ((a.len() == b.len() || (from >= a.len()
            && from >= b.len())) && forall|j: int|
            from <= j < a.len() && j < b.len() ==> a[j] == b[j]),
    decreases a.len() - from,
{
    if from < a.len() && from < b.len() {
        lemma_bytes_order_equal(a, b, from + 1);
    }
}

/// Seen from the other side, the order of two byte strings is reversed.
pub proof fn lemma_bytes_order_reverse(a: Seq<u8>, b: Seq<u8>, from: int)
    requires
        0 <= from,
    ensures
        bytes_order(b, a, from) == bytes_order(a, b, from).reverse(),
    decreases a.len() - from,
{
    if from < a.len() && from < b.len() {
        lemma_bytes_order_reverse(a, b, from + 1);
    }
}

/// A byte string that is less than one that is less than a third is less than
/// the third.
pub proof fn lemma_bytes_order_transitive(a: Seq<u8>, b: Seq<u8>, c: Seq<u8>, from: int)
    requires
        0 <= from,
        bytes_order(a, b, from) == PkOrder::Less,
        bytes_order(b, c, from) == PkOrder::Less,
    ensures
        bytes_order(a, c, from) == PkOrder::Less,
    decreases a.len() - from,
{
    if from < a.len() && from < b.len() && from < c.len() {
        if a[from] == b[from] && b[from] == c[from] {
            lemma_bytes_order_transitive(a, b, c, from + 1);
        }
    }
}

/// Two values are in the order `Equal` exactly where they are one value.
pub proof fn lemma_value_order_equal(a: ValueView, b: ValueView)
    ensures
        value_order(a, b) == PkOrder::Equal <==> a == b,
{
    match (a, b) {
        (ValueView::Text(x), ValueView::Text(y)) => {
            lemma_bytes_order_equal(x, y, 0);
            if value_order(a, b) == PkOrder::Equal {
                assert(x =~= y);
            }
        },
        _ => {},
    }
}

/// Seen from the other side, the order of two values is reversed.
pub proof fn lemma_value_order_reverse(a: ValueView, b: ValueView)
    ensures
        value_order(b, a) == value_order(a, b).reverse(),
{
    match (a, b) {
        (ValueView::Text(x), ValueView::Text(y)) => {
            lemma_bytes_order_reverse(x, y, 0);
        },
        _ => {},
    }
}

/// A value that is less than one that is less than a third is less than the
/// third.
pub proof fn lemma_value_order_transitive(a: ValueView, b: ValueView, c: ValueView)
    requires
        value_order(a, b) == PkOrder::Less,
        value_order(b, c) == PkOrder::Less,
    ensures
        value_order(a, c) == PkOrder::Less,
{
    match (a, b, c) {
        (ValueView::Text(x), ValueView::Text(y), ValueView::Text(z)) => {
            lemma_bytes_order_transitive(x, y, z, 0);
        },
        _ => {},
    }
}

/// Two rows are in the order `Equal` exactly where they have the same values
/// in the key columns.
pub proof fn lemma_key_order_equal(
    columns: Seq<ColumnSchema>,
    a: Seq<ColumnView>,
    b: Seq<ColumnView>,
    from: int,
    key_len: int,
)
    requires
        0 <= from,
    ensures
        key_order(columns, a, b, from, key_len) == PkOrder::Equal <==> forall|i: int|
            from <= i < key_len ==> (#[trigger] a[i]).value.unwrap() == b[i].value.unwrap(),
    decreases key_len - from,
{
    if from < key_len {
        lemma_value_order_equal(a[from].value.unwrap(), b[from].value.unwrap());
        lemma_key_order_equal(columns, a, b, from + 1, key_len);
    }
}

/// Seen from the other side, the order of two rows is reversed.
pub proof fn lemma_key_order_reverse(
    columns: Seq<ColumnSchema>,
    a: Seq<ColumnView>,
    b: Seq<ColumnView>,
    from: int,
    key_len: int,
)
    ensures
        key_order(columns, b, a, from, key_len) == key_order(columns, a, b, from, key_len).reverse(),
    decreases key_len - from,
{
    if from < key_len {
        lemma_value_order_reverse(a[from].value.unwrap(), b[from].value.unwrap());
        lemma_key_order_reverse(columns, a, b, from + 1, key_len);
    }
}

/// A row that comes before one that comes before a third comes before the
/// third.
pub proof fn lemma_key_order_transitive(
    columns: Seq<ColumnSchema>,
    a: Seq<ColumnView>,
    b: Seq<ColumnView>,
    c: Seq<ColumnView>,
    from: int,
    key_len: int,
)
    requires
        key_order(columns, a, b, from, key_len) == PkOrder::Less,
        key_order(columns, b, c, from, key_len) == PkOrder::Less,
    ensures
        key_order(columns, a, c, from, key_len) == PkOrder::Less,
    decreases key_len - from,
{
    if from < key_len {
        let va = a[from].value.unwrap();
        let vb = b[from].value.unwrap();
        let vc = c[from].value.unwrap();
        lemma_value_order_equal(va, vb);
        lemma_value_order_equal(vb, vc);
        lemma_value_order_equal(va, vc);
        lemma_value_order_reverse(va, vb);
        lemma_value_order_reverse(vb, vc);
        lemma_value_order_reverse(va, vc);
        if va == vb && vb == vc {
            lemma_key_order_transitive(columns, a, b, c, from + 1, key_len);
        } else if va != vb && vb != vc {
            if columns[from].descending() {
                lemma_value_order_transitive(vc, vb, va);
            } else {
                lemma_value_order_transitive(va, vb, vc);
            }
        }
    }
}

/// A row compares to a third as a row with the same key does.
pub proof fn lemma_key_order_congruent(
    columns: Seq<ColumnSchema>,
    a: Seq<ColumnView>,
    b: Seq<ColumnView>,
    c: Seq<ColumnView>,
    from: int,
    key_len: int,
)
    requires
        0 <= from,
        key_order(columns, a, b, from, key_len) == PkOrder::Equal,
    ensures
        key_order(columns, a, c, from, key_len) == key_order(columns, b, c, from, key_len),
        key_order(columns, c, a, from, key_len) == key_order(columns, c, b, from, key_len),
    decreases key_len - from,
{
    if from < key_len {
        lemma_value_order_equal(a[from].value.unwrap(), b[from].value.unwrap());
        lemma_key_order_congruent(columns, a, b, c, from + 1, key_len);
    }
}

/// Seen from the other side, the order of two rows is reversed.
pub proof fn lemma_rows_order_reverse(schema: &TableSchema, a: Seq<u8>, b: Seq<u8>)
    ensures
        rows_order(schema, b, a) == rows_order(schema, a, b).reverse(),
{
    reveal(rows_order);
    lemma_key_order_reverse(
        schema.columns@,
        row_columns(schema, a).unwrap(),
        row_columns(schema, b).unwrap(),
        0,
        schema.key_len(),
    );
}

/// A row that comes before one that comes before a third comes before the
/// third.
pub proof fn lemma_rows_order_transitive(schema: &TableSchema, a: Seq<u8>, b: Seq<u8>, c: Seq<u8>)
    requires
        rows_order(schema, a, b) == PkOrder::Less,
        rows_order(schema, b, c) == PkOrder::Less,
    ensures
        rows_order(schema, a, c) == PkOrder::Less,
{
    reveal(rows_order);
    lemma_key_order_transitive(
        schema.columns@,
        row_columns(schema, a).unwrap(),
        row_columns(schema, b).unwrap(),
        row_columns(schema, c).unwrap(),
        0,
        schema.key_len(),
    );
}

/// A row compares to a third as a row with the same key does.
pub proof fn lemma_rows_order_congruent(schema: &TableSchema, a: Seq<u8>, b: Seq<u8>, c: Seq<u8>)
    requires
        rows_order(schema, a, b) == PkOrder::Equal,
    ensures
        rows_order(schema, a, c) == rows_order(schema, b, c),
        rows_order(schema, c, a) == rows_order(schema, c, b),
{
    reveal(rows_order);
    lemma_key_order_congruent(
        schema.columns@,
        row_columns(schema, a).unwrap(),
        row_columns(schema, b).unwrap(),
        row_columns(schema, c).unwrap(),
        0,
        schema.key_len(),
    );
}

impl DetachedRowData {
    /// Checks that the buffer holds a row of the schema that starts with its
    /// key.
    pub fn is_keyed(&self) -> (r: bool)
        ensures
            r == row_keyed(&*self.schema, self.buf@),
    {
        self.row_data_view().is_keyed()
    }
}

/// A row has the key that it has.
pub proof fn lemma_rows_order_reflexive(schema: &TableSchema, a: Seq<u8>)
    ensures
        rows_order(schema, a, a) == PkOrder::Equal,
{
    reveal(rows_order);
    lemma_key_order_equal(
        schema.columns@,
        row_columns(schema, a).unwrap(),
        row_columns(schema, a).unwrap(),
        0,
        schema.key_len(),
    );
}

/// The columns hold a value for each column that rows are ordered by.
pub open spec fn holds_key(schema: &TableSchema, columns: Seq<ColumnView>) -> bool {
    forall|i: int|
        0 <= i < schema.key_len() ==> exists|j: int|
            0 <= j < columns.len() && (#[trigger] columns[j]).col_id
                == (#[trigger] schema.columns@[i]).col_id.0 && columns[j].value is Some
}

/// No two of the columns that rows are ordered by have one id.
pub open spec fn key_ids_distinct(schema: &TableSchema) -> bool {
    forall|i: int, j: int|
        0 <= i < j < schema.key_len() ==> (#[trigger] schema.columns@[i]).col_id != (
        #[trigger] schema.columns@[j]).col_id
}

/// In columns that stand in order and hold the key, the `i`-th key column
/// stands at the place `i`.
proof fn lemma_key_column_at(
    schema: &TableSchema,
    columns: Seq<ColumnView>,
    stored: Seq<ColumnView>,
    i: int,
)
    requires
        in_order(schema, stored),
        forall|c: ColumnView| columns.contains(c) ==> #[trigger] stored.contains(c),
        holds_key(schema, columns),
        key_ids_distinct(schema),
        0 <= i < schema.key_len(),
    ensures
        i < stored.len(),
        stored[i].col_id == schema.columns@[i].col_id.0,
        stored[i].value is Some,
        schema.rank(stored[i].col_id) == i,
    decreases i,
{
    lemma_key_len_bounds(schema.columns@, schema.columns@.len() as int);
    lemma_rank_of_key(schema, i);
    let key_id = schema.columns@[i].col_id.0;
    let j = choose|j: int|
        0 <= j < columns.len() && (#[trigger] columns[j]).col_id == (
        #[trigger] schema.columns@[i]).col_id.0 && columns[j].value is Some;
    assert(columns.contains(columns[j]));
    assert(stored.contains(columns[j]));
    let p = choose|p: int| 0 <= p < stored.len() && stored[p] == columns[j];
    if p < i {
        lemma_key_column_at(schema, columns, stored, p);
    } else if p > i {
        assert(schema.rank(stored[i].col_id) < schema.rank(stored[p].col_id));
        lemma_first_with_id(schema.columns@, stored[i].col_id, schema.key_len());
        if i > 0 {
            lemma_key_column_at(schema, columns, stored, i - 1);
            assert(schema.rank(stored[i - 1].col_id) < schema.rank(stored[i].col_id));
        }
    }
}

/// Columns that stand in order and hold the key are those of a keyed row.
pub proof fn lemma_ordered_columns_keyed(
    schema: &TableSchema,
    columns: Seq<ColumnView>,
    stored: Seq<ColumnView>,
)
    requires
        stored.len() > 0,
        in_order(schema, stored),
        stored.to_multiset() == columns.to_multiset(),
        holds_key(schema, columns),
        key_ids_distinct(schema),
    ensures
        keyed_columns(schema, stored),
{
    assert forall|c: ColumnView| columns.contains(c) implies #[trigger] stored.contains(c) by {
        vstd::seq_lib::to_multiset_contains(columns, c);
        vstd::seq_lib::to_multiset_contains(stored, c);
    }
    assert forall|i: int| 0 <= i < schema.key_len() implies (#[trigger] stored[i]).col_id
        == schema.columns@[i].col_id.0 && stored[i].value is Some && i < stored.len() by {
        lemma_key_column_at(schema, columns, stored, i);
    }
    if schema.key_len() > 0 {
        lemma_key_column_at(schema, columns, stored, schema.key_len() - 1);
    }
}

} // verus!
