//! The memtable: the rows that were written last, kept in memory in the order
//! of their keys, one row for each key.

use vstd::prelude::*;
use std::sync::Arc;
use crate::config::TableConfig;
use crate::error::HtError;
use crate::error::HtResult;
use crate::merge::lemma_merged_columns_keyed;
use crate::merge::merge_columns;
use crate::merge::merged_row;
use crate::merge_laws::lemma_merged_row_columns;
use crate::pk::lemma_rows_order_congruent;
use crate::pk::lemma_rows_order_reflexive;
use crate::pk::lemma_rows_order_reverse;
use crate::pk::lemma_rows_order_transitive;
use crate::pk::all_keyed;
use crate::pk::row_keyed;
use crate::pk::rows_order;
use crate::pk::rows_sorted;
use crate::pk::PkOrder;
use crate::row::row_columns;
use crate::row::DetachedRowData;
use crate::schema::TableSchema;

verus! {

/// The buffers of the rows, in their order.
pub open spec fn row_buffers(data: Seq<DetachedRowData>) -> Seq<Seq<u8>> {
    Seq::new(data.len(), |i: int| data[i].buf@)
}

/// The number of bytes in the first `n` of the buffers.
pub open spec fn total_len(rows: Seq<Seq<u8>>, n: int) -> int
    decreases n,
{
    if n <= 0 {
        0
    } else {
        total_len(rows, n - 1) + rows[n - 1].len()
    }
}

/// The place of the first row from `from` on that does not come before `row`;
/// the number of rows where all come before it.
pub open spec fn first_not_less(schema: &TableSchema, rows: Seq<Seq<u8>>, row: Seq<u8>, from: int) -> int
    decreases rows.len() - from,
{
    if from < 0 || from >= rows.len() {
        rows.len() as int
    } else if rows_order(schema, rows[from], row) == PkOrder::Less {
        first_not_less(schema, rows, row, from + 1)
    } else {
        from
    }
}

/// The rows after `row` was added: where one of them has the key of `row`,
/// the merged row takes its place; otherwise `row` is put in before the first
/// that does not come before it.
pub open spec fn rows_with(schema: &TableSchema, rows: Seq<Seq<u8>>, row: Seq<u8>) -> Seq<Seq<u8>> {
    let at = first_not_less(schema, rows, row, 0);
    if at < rows.len() && rows_order(schema, rows[at], row) == PkOrder::Equal {
        rows.update(at, merged_row(schema, row, rows[at]))
    } else {
        rows.insert(at, row)
    }
}

/// The rows that were written last, in the order of their keys, and the number
/// of bytes that they take.
pub struct MemTable {
    pub config: Arc<TableConfig>,
    pub schema: Arc<TableSchema>,
    pub data: Vec<DetachedRowData>,
    pub size: usize,
}

impl MemTable {
    /// The buffers of the rows of the table, in the order of their keys.
    pub open spec fn rows(&self) -> Seq<Seq<u8>> {
        row_buffers(self.data@)
    }

    /// Each row is a keyed row of the schema, the rows stand in the strict
    /// order of their keys, and the size is the number of bytes in their
    /// buffers.
    pub open spec fn wf(&self) -> bool {
        &&& forall|i: int|
            0 <= i < self.data@.len() ==> (#[trigger] self.data@[i]).schema == self.schema
        &&& all_keyed(&*self.schema, self.rows())
        &&& rows_sorted(&*self.schema, self.rows())
        &&& self.size == total_len(self.rows(), self.rows().len() as int)
    }

    /// An empty table of the schema.
    pub fn new(config: &Arc<TableConfig>, schema: &Arc<TableSchema>) -> (r: MemTable)
        ensures
            r.wf(),
            r.config == *config,
            r.schema == *schema,
            r.rows() == Seq::<Seq<u8>>::empty(),
            r.size == 0,
    {
        let r = MemTable {
            config: config.clone(),
            schema: schema.clone(),
            data: Vec::new(),
            size: 0,
        };
        assert(r.rows() =~= Seq::<Seq<u8>>::empty());
        r
    }
}

/// Where all rows before the place `at` come before `row`, and the row at
/// `at`, if there is one, does not, `at` is the first place that does not.
pub proof fn lemma_first_not_less(
    schema: &TableSchema,
    rows: Seq<Seq<u8>>,
    row: Seq<u8>,
    from: int,
    at: int,
)
    requires
        0 <= from <= at <= rows.len(),
        forall|i: int|
            0 <= i < at ==> #[trigger] rows_order(schema, rows[i], row) == PkOrder::Less,
        at < rows.len() ==> rows_order(schema, rows[at], row) != PkOrder::Less,
    ensures
        first_not_less(schema, rows, row, from) == at,
    decreases at - from,
{
    if from < at {
        lemma_first_not_less(schema, rows, row, from + 1, at);
    }
}

/// The bytes in the first `n` buffers after one was put in at `at`.
pub proof fn lemma_total_len_insert(rows: Seq<Seq<u8>>, at: int, x: Seq<u8>, n: int)
    requires
        0 <= at <= rows.len(),
        0 <= n <= rows.len() + 1,
    ensures
        total_len(rows.insert(at, x), n) == (if n <= at {
            total_len(rows, n)
        } else {
            total_len(rows, n - 1) + x.len()
        }),
    decreases n,
{
    if n > 0 {
        lemma_total_len_insert(rows, at, x, n - 1);
    }
}

/// The bytes in the first `n` buffers after the one at `at` was replaced.
pub proof fn lemma_total_len_update(rows: Seq<Seq<u8>>, at: int, x: Seq<u8>, n: int)
    requires
        0 <= at < rows.len(),
        0 <= n <= rows.len(),
    ensures
        total_len(rows.update(at, x), n) == (if n <= at {
            total_len(rows, n)
        } else {
            total_len(rows, n) - rows[at].len() + x.len()
        }),
        total_len(rows, n) >= 0,
        n > at ==> total_len(rows, n) >= rows[at].len(),
    decreases n,
{
    if n > 0 {
        lemma_total_len_update(rows, at, x, n - 1);
    }
}

impl MemTable {
    /// The place of the first row that does not come before `probe`, and
    /// whether that row has the key of `probe`.
    pub fn locate(&self, probe: &DetachedRowData) -> (r: (usize, bool))
        requires
            self.wf(),
            probe.schema == self.schema,
            row_keyed(&*self.schema, probe.buf@),
        ensures
            r.0 == first_not_less(&*self.schema, self.rows(), probe.buf@, 0),
            r.0 <= self.rows().len(),
            r.1 == (r.0 < self.rows().len() && rows_order(
                &*self.schema,
                self.rows()[r.0 as int],
                probe.buf@,
            ) == PkOrder::Equal),
            forall|i: int|
                0 <= i < r.0 ==> #[trigger] rows_order(&*self.schema, self.rows()[i], probe.buf@)
                    == PkOrder::Less,
            forall|i: int|
                r.0 <= i < self.rows().len() && !(i == r.0 && r.1) ==> #[trigger] rows_order(
                    &*self.schema,
                    self.rows()[i],
                    probe.buf@,
                ) == PkOrder::Greater,
    {
        let ghost schema = &*self.schema;
        let ghost rows = self.rows();
        let ghost target = probe.buf@;
        let probe_view = probe.row_data_view();
        let mut lo: usize = 0;
        let mut hi: usize = self.data.len();
        while lo < hi
            invariant
                self.wf(),
                schema == &*self.schema,
                rows == self.rows(),
                target == probe.buf@,
                probe_view.schema == self.schema,
                probe_view.buf@ == target,
                row_keyed(schema, target),
                lo <= hi <= rows.len(),
                forall|i: int|
                    0 <= i < lo ==> #[trigger] rows_order(schema, rows[i], target)
                        == PkOrder::Less,
                forall|i: int|
                    hi <= i < rows.len() ==> #[trigger] rows_order(schema, rows[i], target)
                        != PkOrder::Less,
            decreases hi - lo,
        {
            let mid: usize = lo + (hi - lo) / 2;
            let view = self.data[mid].row_data_view();
            assert(view.keyed() && probe_view.keyed()) by {
                reveal(row_keyed);
                assert(row_keyed(schema, rows[mid as int]));
            }
            let here = view.pk_order(&probe_view);
            assert(here == rows_order(schema, rows[mid as int], target)) by {
                reveal(rows_order);
            }
            match here {
                PkOrder::Less => {
                    proof {
                        assert forall|i: int| 0 <= i < mid + 1 implies #[trigger] rows_order(
                            schema,
                            rows[i],
                            target,
                        ) == PkOrder::Less by {
                            if i < mid {
                                assert(rows_order(schema, rows[i], rows[mid as int])
                                    == PkOrder::Less);
                                lemma_rows_order_transitive(
                                    schema,
                                    rows[i],
                                    rows[mid as int],
                                    target,
                                );
                            }
                        }
                    }
                    lo = mid + 1;
                },
                _ => {
                    proof {
                        assert forall|i: int| mid <= i < rows.len() implies #[trigger] rows_order(
                            schema,
                            rows[i],
                            target,
                        ) != PkOrder::Less by {
                            if i > mid && rows_order(schema, rows[i], target) == PkOrder::Less {
                                assert(rows_order(schema, rows[mid as int], rows[i])
                                    == PkOrder::Less);
                                lemma_rows_order_transitive(
                                    schema,
                                    rows[mid as int],
                                    rows[i],
                                    target,
                                );
                            }
                        }
                    }
                    hi = mid;
                },
            }
        }
        let found = if lo < self.data.len() {
            let view = self.data[lo].row_data_view();
            assert(view.keyed() && probe_view.keyed()) by {
                reveal(row_keyed);
                assert(row_keyed(schema, rows[lo as int]));
            }
            let here = view.pk_order(&probe_view);
            assert(here == rows_order(schema, rows[lo as int], target)) by {
                reveal(rows_order);
            }
            here == PkOrder::Equal
        } else {
            false
        };
        proof {
            lemma_first_not_less(schema, rows, target, 0, lo as int);
            assert forall|i: int|
                lo <= i < rows.len() && !(i == lo && found) implies #[trigger] rows_order(
                schema,
                rows[i],
                target,
            ) == PkOrder::Greater by {
                if i > lo {
                    assert(rows_order(schema, rows[lo as int], rows[i]) == PkOrder::Less);
                    assert(rows_order(schema, rows[lo as int], target) != PkOrder::Less);
                    lemma_rows_order_reverse(schema, rows[i], target);
                    lemma_rows_order_reverse(schema, rows[lo as int], target);
                    lemma_rows_order_reverse(schema, rows[lo as int], rows[i]);
                    if rows_order(schema, rows[i], target) == PkOrder::Equal {
                        lemma_rows_order_congruent(schema, rows[i], target, rows[lo as int]);
                    }
                }
            }
        }
        (lo, found)
    }

    /// The row that has the key of `pk_data`, if the table holds one.
    pub fn get(&self, pk_data: &DetachedRowData) -> (r: Option<&DetachedRowData>)
        requires
            self.wf(),
            pk_data.schema == self.schema,
            row_keyed(&*self.schema, pk_data.buf@),
        ensures
            r is Some <==> exists|i: int|
                0 <= i < self.rows().len() && #[trigger] rows_order(
                    &*self.schema,
                    self.rows()[i],
                    pk_data.buf@,
                ) == PkOrder::Equal,
            r matches Some(found) ==> exists|i: int|
                0 <= i < self.data@.len() && *found == self.data@[i] && #[trigger] rows_order(
                    &*self.schema,
                    self.rows()[i],
                    pk_data.buf@,
                ) == PkOrder::Equal,
    {
        let (at, found) = self.locate(pk_data);
        if found {
            assert(self.rows()[at as int] == self.data@[at as int].buf@);
            Some(&self.data[at])
        } else {
            None
        }
    }

    /// Adds a row: where the table holds a row with its key, the two are
    /// merged and the merged row takes that row's place; otherwise the row is
    /// put in at its place in the order of the keys.
    pub fn add(&mut self, row: DetachedRowData)
        requires
            old(self).wf(),
            row.schema == old(self).schema,
            row_keyed(&*old(self).schema, row.buf@),
            total_len(
                rows_with(&*old(self).schema, old(self).rows(), row.buf@),
                rows_with(&*old(self).schema, old(self).rows(), row.buf@).len() as int,
            ) <= usize::MAX,
        ensures
            final(self).wf(),
            final(self).schema == old(self).schema,
            final(self).config == old(self).config,
            final(self).rows() == rows_with(&*old(self).schema, old(self).rows(), row.buf@),
    {
        let (at, found) = self.locate(&row);
        if found {
            let merged = self.merged_at(at, &row);
            self.replace_at(at, merged, Ghost(row.buf@));
        } else {
            self.insert_at(at, row);
        }
    }

    /// Adds a row as `add` does, if it is a keyed row with a column and the
    /// size of the table stays within `usize`; otherwise the table stays as it
    /// is and the error says why.
    pub fn try_add(&mut self, row: DetachedRowData) -> (r: HtResult<()>)
        requires
            old(self).wf(),
            row.schema == old(self).schema,
        ensures
            final(self).wf(),
            final(self).schema == old(self).schema,
            final(self).config == old(self).config,
            r is Ok <==> row_keyed(&*old(self).schema, row.buf@) && total_len(
                rows_with(&*old(self).schema, old(self).rows(), row.buf@),
                rows_with(&*old(self).schema, old(self).rows(), row.buf@).len() as int,
            ) <= usize::MAX,
            r is Ok ==> final(self).rows() == rows_with(
                &*old(self).schema,
                old(self).rows(),
                row.buf@,
            ),
            r is Err ==> final(self).rows() == old(self).rows(),
            r is Err ==> final(self).size == old(self).size,
            r matches Err(e) ==> e is Misc,
    {
        if !row.is_keyed() {
            return Err(HtError::misc("the row does not start with its key"));
        }
        let ghost before = self.rows();
        let (at, found) = self.locate(&row);
        if found {
            let merged = self.merged_at(at, &row);
            proof {
                lemma_total_len_update(before, at as int, merged.buf@, before.len() as int);
            }
            let rest: usize = self.size - self.data[at].buf.len();
            match rest.checked_add(merged.buf.len()) {
                Some(_) => {
                    self.replace_at(at, merged, Ghost(row.buf@));
                    Ok(())
                },
                None => Err(HtError::misc("the table is full")),
            }
        } else {
            proof {
                lemma_total_len_insert(before, at as int, row.buf@, before.len() as int + 1);
            }
            match self.size.checked_add(row.buf.len()) {
                Some(_) => {
                    self.insert_at(at, row);
                    Ok(())
                },
                None => Err(HtError::misc("the table is full")),
            }
        }
    }

    /// The row that `row` gives when it is merged with the row at `at`, which
    /// has its key.
    fn merged_at(&self, at: usize, row: &DetachedRowData) -> (r: DetachedRowData)
        requires
            self.wf(),
            row.schema == self.schema,
            row_keyed(&*self.schema, row.buf@),
            at < self.rows().len(),
            rows_order(&*self.schema, self.rows()[at as int], row.buf@) == PkOrder::Equal,
        ensures
            r.schema == self.schema,
            r.buf@ == merged_row(&*self.schema, row.buf@, self.rows()[at as int]),
    {
        let ghost schema = &*self.schema;
        let ghost prev_bytes = self.rows()[at as int];
        proof {
            assert(row_keyed(schema, prev_bytes));
            lemma_rows_order_reverse(schema, prev_bytes, row.buf@);
        }
        let new_view = row.row_data_view();
        let prev_view = self.data[at].row_data_view();
        assert(new_view.keyed() && prev_view.keyed()) by {
            reveal(row_keyed);
        }
        assert(new_view.spec_pk_order(&prev_view) == PkOrder::Equal) by {
            reveal(rows_order);
        }
        new_view.merge(&prev_view)
    }

    /// Puts `merged`, which is what `row` gives when it is merged with the
    /// row at `at`, in that row's place.
    fn replace_at(&mut self, at: usize, merged: DetachedRowData, Ghost(row): Ghost<Seq<u8>>)
        requires
            old(self).wf(),
            merged.schema == old(self).schema,
            row_keyed(&*old(self).schema, row),
            at < old(self).rows().len(),
            rows_order(&*old(self).schema, old(self).rows()[at as int], row) == PkOrder::Equal,
            merged.buf@ == merged_row(&*old(self).schema, row, old(self).rows()[at as int]),
            total_len(
                old(self).rows().update(at as int, merged.buf@),
                old(self).rows().len() as int,
            ) <= usize::MAX,
        ensures
            final(self).wf(),
            final(self).schema == old(self).schema,
            final(self).config == old(self).config,
            final(self).rows() == old(self).rows().update(at as int, merged.buf@),
    {
        let ghost schema = &*self.schema;
        let ghost before = self.rows();
        let ghost prev_bytes = before[at as int];
        let ghost merged_bytes = merged.buf@;
        proof {
            assert(row_keyed(schema, prev_bytes));
            lemma_rows_order_reverse(schema, prev_bytes, row);
            lemma_merged_row(schema, row, prev_bytes);
            lemma_total_len_update(before, at as int, merged_bytes, before.len() as int);
            lemma_rows_after_update(schema, before, at as int, merged_bytes);
        }
        self.size = self.size - self.data[at].buf.len();
        self.size = self.size + merged.buf.len();
        self.data.set(at, merged);
        proof {
            assert(self.rows() =~= before.update(at as int, merged_bytes));
        }
    }

    /// Puts `row` in at the place `at`, between the rows that come before it
    /// and those that come after it.
    fn insert_at(&mut self, at: usize, row: DetachedRowData)
        requires
            old(self).wf(),
            row.schema == old(self).schema,
            row_keyed(&*old(self).schema, row.buf@),
            at <= old(self).rows().len(),
            forall|i: int|
                0 <= i < at ==> #[trigger] rows_order(
                    &*old(self).schema,
                    old(self).rows()[i],
                    row.buf@,
                ) == PkOrder::Less,
            forall|i: int|
                at <= i < old(self).rows().len() ==> #[trigger] rows_order(
                    &*old(self).schema,
                    old(self).rows()[i],
                    row.buf@,
                ) == PkOrder::Greater,
            total_len(
                old(self).rows().insert(at as int, row.buf@),
                old(self).rows().len() as int + 1,
            ) <= usize::MAX,
        ensures
            final(self).wf(),
            final(self).schema == old(self).schema,
            final(self).config == old(self).config,
            final(self).rows() == old(self).rows().insert(at as int, row.buf@),
    {
        let ghost schema = &*self.schema;
        let ghost before = self.rows();
        let ghost new_bytes = row.buf@;
        proof {
            lemma_total_len_insert(before, at as int, new_bytes, before.len() as int + 1);
            lemma_rows_after_insert(schema, before, at as int, new_bytes);
        }
        self.size = self.size + row.buf.len();
        self.data.insert(at, row);
        proof {
            assert(self.rows() =~= before.insert(at as int, new_bytes));
            assert forall|i: int| 0 <= i < self.data@.len() implies (
            #[trigger] self.data@[i]).schema == self.schema by {
                if i < at {
                    assert(self.data@[i] == old(self).data@[i]);
                } else if i > at {
                    assert(self.data@[i] == old(self).data@[i - 1]);
                }
            }
        }
    }
}

/// Rows that are keyed and in order stay so when a row is put in between
/// those that come before it and those that come after it.
pub proof fn lemma_rows_after_insert(
    schema: &TableSchema,
    before: Seq<Seq<u8>>,
    at: int,
    row: Seq<u8>,
)
    requires
        all_keyed(schema, before),
        rows_sorted(schema, before),
        row_keyed(schema, row),
        0 <= at <= before.len(),
        forall|i: int|
            0 <= i < at ==> #[trigger] rows_order(schema, before[i], row) == PkOrder::Less,
        forall|i: int|
            at <= i < before.len() ==> #[trigger] rows_order(schema, before[i], row)
                == PkOrder::Greater,
    ensures
        all_keyed(schema, before.insert(at, row)),
        rows_sorted(schema, before.insert(at, row)),
{
    let after = before.insert(at, row);
    assert forall|i: int| 0 <= i < after.len() implies #[trigger] row_keyed(schema, after[i]) by {
        if i < at {
            assert(after[i] == before[i]);
        } else if i > at {
            assert(after[i] == before[i - 1]);
        }
    }
    assert forall|i: int, j: int| 0 <= i < j < after.len() implies #[trigger] rows_order(
        schema,
        after[i],
        after[j],
    ) == PkOrder::Less by {
        if j < at {
            assert(rows_order(schema, before[i], before[j]) == PkOrder::Less);
        } else if j == at {
            assert(after[i] == before[i]);
            assert(rows_order(schema, before[i], row) == PkOrder::Less);
        } else if i == at {
            assert(after[j] == before[j - 1]);
            assert(rows_order(schema, before[j - 1], row) == PkOrder::Greater);
            lemma_rows_order_reverse(schema, before[j - 1], row);
        } else if i < at {
            assert(after[i] == before[i]);
            assert(after[j] == before[j - 1]);
            assert(rows_order(schema, before[i], before[j - 1]) == PkOrder::Less);
        } else {
            assert(after[i] == before[i - 1]);
            assert(after[j] == before[j - 1]);
            assert(rows_order(schema, before[i - 1], before[j - 1]) == PkOrder::Less);
        }
    }
}

/// The row that two keyed rows with one key give when they are merged is a
/// keyed row with their key, and it holds a column.
pub proof fn lemma_merged_row(schema: &TableSchema, row: Seq<u8>, prev: Seq<u8>)
    requires
        row_keyed(schema, row),
        row_keyed(schema, prev),
        rows_order(schema, row, prev) == PkOrder::Equal,
    ensures
        row_columns(schema, merged_row(schema, row, prev)) == Some(
            merge_columns(
                schema,
                row_columns(schema, row).unwrap(),
                row_columns(schema, prev).unwrap(),
                0,
                0,
            ),
        ),
        row_keyed(schema, merged_row(schema, row, prev)),
        rows_order(schema, merged_row(schema, row, prev), prev) == PkOrder::Equal,
{
    reveal(row_keyed);
    reveal(rows_order);
    lemma_merged_columns_keyed(schema, row, prev);
    lemma_merged_row_columns(schema, row, prev);
}

/// Rows that are keyed and in order stay so when one of them is replaced by
/// a keyed row with its key.
pub proof fn lemma_rows_after_update(
    schema: &TableSchema,
    before: Seq<Seq<u8>>,
    at: int,
    row: Seq<u8>,
)
    requires
        all_keyed(schema, before),
        rows_sorted(schema, before),
        0 <= at < before.len(),
        row_keyed(schema, row),
        rows_order(schema, row, before[at]) == PkOrder::Equal,
    ensures
        all_keyed(schema, before.update(at, row)),
        rows_sorted(schema, before.update(at, row)),
{
    let after = before.update(at, row);
    assert forall|i: int| 0 <= i < after.len() implies #[trigger] row_keyed(schema, after[i]) by {
        if i != at {
            assert(after[i] == before[i]);
        }
    }
    assert forall|i: int, j: int| 0 <= i < j < after.len() implies #[trigger] rows_order(
        schema,
        after[i],
        after[j],
    ) == PkOrder::Less by {
        assert(rows_order(schema, before[i], before[j]) == PkOrder::Less);
        if i == at {
            lemma_rows_order_congruent(schema, row, before[at], before[j]);
        } else if j == at {
            lemma_rows_order_congruent(schema, row, before[at], before[i]);
        }
    }
}

/// The rows before the first that does not come before `row` all come
/// before it, and that one does not.
pub proof fn lemma_first_not_less_splits(
    schema: &TableSchema,
    rows: Seq<Seq<u8>>,
    row: Seq<u8>,
    from: int,
)
    requires
        0 <= from <= rows.len(),
    ensures
        from <= first_not_less(schema, rows, row, from) <= rows.len(),
        forall|i: int|
            from <= i < first_not_less(schema, rows, row, from) ==> #[trigger] rows_order(
                schema,
                rows[i],
                row,
            ) == PkOrder::Less,
        first_not_less(schema, rows, row, from) < rows.len() ==> rows_order(
            schema,
            rows[first_not_less(schema, rows, row, from)],
            row,
        ) != PkOrder::Less,
    decreases rows.len() - from,
{
    if from < rows.len() && rows_order(schema, rows[from], row) == PkOrder::Less {
        lemma_first_not_less_splits(schema, rows, row, from + 1);
    }
}

/// A row that was added is there: the rows of a table to which a keyed row
/// was added are keyed and in order, and at the place of the first row that
/// did not come before the new one stands the row with its key, which is the
/// new row itself or what it gives when it is merged with the row that stood
/// there.
pub proof fn lemma_added_row_is_there(schema: &TableSchema, rows: Seq<Seq<u8>>, row: Seq<u8>)
    requires
        all_keyed(schema, rows),
        rows_sorted(schema, rows),
        row_keyed(schema, row),
    ensures
        ({
            let at = first_not_less(schema, rows, row, 0);
            let after = rows_with(schema, rows, row);
            &&& 0 <= at < after.len()
            &&& rows_order(schema, after[at], row) == PkOrder::Equal
            &&& all_keyed(schema, after)
            &&& rows_sorted(schema, after)
            &&& after[at] == (if at < rows.len() && rows_order(schema, rows[at], row)
                == PkOrder::Equal {
                merged_row(schema, row, rows[at])
            } else {
                row
            })
        }),
{
    let at = first_not_less(schema, rows, row, 0);
    lemma_first_not_less_splits(schema, rows, row, 0);
    if at < rows.len() && rows_order(schema, rows[at], row) == PkOrder::Equal {
        let merged = merged_row(schema, row, rows[at]);
        assert(row_keyed(schema, rows[at]));
        lemma_rows_order_reverse(schema, rows[at], row);
        lemma_merged_row(schema, row, rows[at]);
        lemma_rows_after_update(schema, rows, at, merged);
        lemma_rows_order_congruent(schema, merged, rows[at], row);
    } else {
        assert forall|i: int| at <= i < rows.len() implies #[trigger] rows_order(
            schema,
            rows[i],
            row,
        ) == PkOrder::Greater by {
            lemma_rows_order_reverse(schema, rows[i], row);
            lemma_rows_order_reverse(schema, rows[at], row);
            if i > at {
                assert(rows_order(schema, rows[at], rows[i]) == PkOrder::Less);
                lemma_rows_order_reverse(schema, rows[at], rows[i]);
                if rows_order(schema, rows[i], row) == PkOrder::Equal {
                    lemma_rows_order_congruent(schema, rows[i], row, rows[at]);
                } else if rows_order(schema, rows[i], row) == PkOrder::Less {
                    lemma_rows_order_transitive(schema, rows[at], rows[i], row);
                }
            }
        }
        lemma_rows_after_insert(schema, rows, at, row);
        lemma_rows_order_reflexive(schema, row);
    }
}

} // verus!
