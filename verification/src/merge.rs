//! Merging two versions of a row: for each column the version that was
//! written last wins.

use vstd::prelude::*;
use crate::column::column_at;
use crate::column::column_views;
use crate::column::lemma_column_at_fits;
use crate::column::merged_column;
use crate::column::ColumnData;
use crate::column::ColumnView;
use crate::pk::has_key;
use crate::pk::key_order;
use crate::pk::lemma_key_order_equal;
use crate::pk::PkOrder;
use crate::pk::keyed_columns;
use crate::row::all_fit_schema;
use crate::row::all_typed;
use crate::row::lemma_stored_order_of_sorted;
use crate::row::rank_sorted;
use crate::row::typed;
use crate::row::columns_from;
use crate::row::fits_schema;
use crate::row::header_expiry;
use crate::row::header_len;
use crate::row::header_timestamp;
use crate::row::lemma_column_at_advances;
use crate::row::row_bytes;
use crate::row::row_columns;
use crate::row::DetachedRowData;
use crate::row::RowData;
use crate::schema::TableSchema;
use crate::schema::lemma_key_len_bounds;

verus! {

/// The columns of two rows from the places `i` and `j` on, merged: both lists
/// are walked in step; of two columns with different ids the one that a row
/// stores first comes first; of two with one id the one with the greater
/// timestamp stays.
pub open spec fn merge_columns(
    schema: &TableSchema,
    a: Seq<ColumnView>,
    b: Seq<ColumnView>,
    i: int,
    j: int,
) -> Seq<ColumnView>
    decreases a.len() - i + b.len() - j,
{
    if i < 0 || j < 0 || i > a.len() || j > b.len() {
        Seq::empty()
    } else if i == a.len() {
        b.skip(j)
    } else if j == b.len() {
        a.skip(i)
    } else if schema.rank(a[i].col_id) < schema.rank(b[j].col_id) {
        seq![a[i]] + merge_columns(schema, a, b, i + 1, j)
    } else if schema.rank(b[j].col_id) < schema.rank(a[i].col_id) {
        seq![b[j]] + merge_columns(schema, a, b, i, j + 1)
    } else {
        seq![merged_column(a[i], b[j])] + merge_columns(schema, a, b, i + 1, j + 1)
    }
}

/// The buffer of the row that two rows give when they are merged.
pub open spec fn merged_row(schema: &TableSchema, a: Seq<u8>, b: Seq<u8>) -> Seq<u8> {
    row_bytes(
        merge_columns(schema, row_columns(schema, a).unwrap(), row_columns(schema, b).unwrap(), 0, 0),
    )
}

/// The columns that are read from a row fit the row's schema.
pub proof fn lemma_columns_read_fit_schema(
    schema: &TableSchema,
    s: Seq<u8>,
    offs: int,
    row_timestamp: u64,
    row_expiry: Option<u32>,
)
    requires
        0 <= offs,
        columns_from(schema, s, offs, row_timestamp, row_expiry) is Some,
    ensures
        all_fit_schema(schema, columns_from(schema, s, offs, row_timestamp, row_expiry).unwrap()),
    decreases s.len() - offs,
{
    if offs < s.len() {
        let (c, next) = column_at(schema, s, offs, row_timestamp, row_expiry).unwrap();
        lemma_column_at_advances(schema, s, offs, row_timestamp, row_expiry);
        lemma_column_at_fits(schema, s, offs, row_timestamp, row_expiry);
        lemma_columns_read_fit_schema(schema, s, next, row_timestamp, row_expiry);
        let rest = columns_from(schema, s, next, row_timestamp, row_expiry).unwrap();
        let all = seq![c] + rest;
        assert(fits_schema(schema, c));
        assert forall|i: int| 0 <= i < all.len() implies fits_schema(schema, #[trigger] all[i]) by {
            if i > 0 {
                assert(all[i] == rest[i - 1]);
            }
        }
    }
}

/// The columns of a well-formed row fit the row's schema.
pub proof fn lemma_row_fits_schema(schema: &TableSchema, s: Seq<u8>)
    requires
        row_columns(schema, s) is Some,
    ensures
        all_fit_schema(schema, row_columns(schema, s).unwrap()),
{
    lemma_columns_read_fit_schema(schema, s, header_len(s), header_timestamp(s), header_expiry(s));
}

/// Merged columns that come from columns that fit a schema fit it too.
pub proof fn lemma_merge_fits_schema(
    schema: &TableSchema,
    a: Seq<ColumnView>,
    b: Seq<ColumnView>,
    i: int,
    j: int,
)
    requires
        all_fit_schema(schema, a),
        all_fit_schema(schema, b),
        0 <= i <= a.len(),
        0 <= j <= b.len(),
    ensures
        all_fit_schema(schema, merge_columns(schema, a, b, i, j)),
        merge_columns(schema, a, b, i, j).len() >= a.len() - i,
        merge_columns(schema, a, b, i, j).len() >= b.len() - j,
    decreases a.len() - i + b.len() - j,
{
    let merged = merge_columns(schema, a, b, i, j);
    if i == a.len() {
    } else if j == b.len() {
    } else {
        let (head, rest) = if schema.rank(a[i].col_id) < schema.rank(b[j].col_id) {
            lemma_merge_fits_schema(schema, a, b, i + 1, j);
            (a[i], merge_columns(schema, a, b, i + 1, j))
        } else if schema.rank(b[j].col_id) < schema.rank(a[i].col_id) {
            lemma_merge_fits_schema(schema, a, b, i, j + 1);
            (b[j], merge_columns(schema, a, b, i, j + 1))
        } else {
            lemma_merge_fits_schema(schema, a, b, i + 1, j + 1);
            (merged_column(a[i], b[j]), merge_columns(schema, a, b, i + 1, j + 1))
        };
        assert(merged == seq![head] + rest);
        assert(fits_schema(schema, a[i]));
        assert(fits_schema(schema, b[j]));
        assert forall|t: int| 0 <= t < merged.len() implies fits_schema(
            schema,
            #[trigger] merged[t],
        ) by {
            if t > 0 {
                assert(merged[t] == rest[t - 1]);
            }
        }
    }
}

impl<'a> RowData<'a> {
    /// The row that holds, for each column of this row or of `other`, the
    /// version that was written last. It is a keyed row with the key of the
    /// two.
    pub fn merge(&self, other: &RowData) -> (r: DetachedRowData)
        requires
            self.keyed(),
            other.keyed(),
            self.schema == other.schema,
            self.spec_pk_order(other) == PkOrder::Equal,
        ensures
            r.schema == self.schema,
            r.buf@ == merged_row(&*self.schema, self.buf@, other.buf@),
            row_columns(&*r.schema, r.buf@) == Some(
                merge_columns(&*self.schema, self.spec_columns(), other.spec_columns(), 0, 0),
            ),
            keyed_columns(
                &*self.schema,
                merge_columns(&*self.schema, self.spec_columns(), other.spec_columns(), 0, 0),
            ),
    {
        let mine = self.column_list();
        let theirs = other.column_list();
        let ghost table = &*self.schema;
        let ghost a = self.spec_columns();
        let ghost b = other.spec_columns();
        let key_len = self.schema.leading_key_columns();
        let mut columns: Vec<ColumnData> = Vec::new();
        let mut i: usize = 0;
        let mut j: usize = 0;
        while i < mine.len() || j < theirs.len()
            invariant
                i <= mine.len(),
                j <= theirs.len(),
                table == &*self.schema,
                key_len == table.key_len(),
                a == column_views(mine@),
                b == column_views(theirs@),
                merge_columns(table, a, b, 0, 0) == column_views(columns@) + merge_columns(
                    table,
                    a,
                    b,
                    i as int,
                    j as int,
                ),
            decreases mine.len() - i + theirs.len() - j,
        {
            let ghost before = column_views(columns@);
            let ghost rest = merge_columns(table, a, b, i as int, j as int);
            if i == mine.len() {
                columns.push(theirs[j]);
                proof {
                    assert(rest == b.skip(j as int));
                    assert(merge_columns(table, a, b, i as int, j + 1) == b.skip(j + 1));
                    assert(before.push(b[j as int]) + b.skip(j + 1) =~= before + b.skip(j as int));
                }
                j = j + 1;
            } else if j == theirs.len() {
                columns.push(mine[i]);
                proof {
                    assert(rest == a.skip(i as int));
                    assert(merge_columns(table, a, b, i + 1, j as int) == a.skip(i + 1));
                    assert(before.push(a[i as int]) + a.skip(i + 1) =~= before + a.skip(i as int));
                }
                i = i + 1;
            } else {
                let rank_mine = self.schema.rank_among(key_len, mine[i].col_id);
                let rank_theirs = self.schema.rank_among(key_len, theirs[j].col_id);
                if rank_mine < rank_theirs {
                    columns.push(mine[i]);
                    proof {
                        let tail = merge_columns(table, a, b, i + 1, j as int);
                        assert(before.push(a[i as int]) + tail =~= before + (seq![a[i as int]]
                            + tail));
                    }
                    i = i + 1;
                } else if rank_theirs < rank_mine {
                    columns.push(theirs[j]);
                    proof {
                        let tail = merge_columns(table, a, b, i as int, j + 1);
                        assert(before.push(b[j as int]) + tail =~= before + (seq![b[j as int]]
                            + tail));
                    }
                    j = j + 1;
                } else {
                    let winner = if mine[i].timestamp.ticks > theirs[j].timestamp.ticks {
                        mine[i]
                    } else {
                        theirs[j]
                    };
                    columns.push(winner);
                    proof {
                        let tail = merge_columns(table, a, b, i + 1, j + 1);
                        assert(before.push(winner@) + tail =~= before + (seq![winner@] + tail));
                    }
                    i = i + 1;
                    j = j + 1;
                }
            }
            proof {
                assert(column_views(columns@) =~= before.push(columns@[columns@.len() - 1]@));
            }
        }
        proof {
            assert(column_views(columns@) + Seq::<ColumnView>::empty() =~= column_views(columns@));
            let merged = merge_columns(table, a, b, 0, 0);
            assert(column_views(columns@) == merged);
            lemma_merged_columns_keyed(table, self.buf@, other.buf@);
            lemma_stored_order_of_sorted(table, merged, merged.len() as int);
            assert(merged.take(merged.len() as int) =~= merged);
        }
        DetachedRowData::assemble(&self.schema, &columns)
    }
}

/// The merged columns of two keyed rows with one key are those of a keyed
/// row: they fit the schema, start with the key, and stand in order.
pub proof fn lemma_merged_columns_keyed(schema: &TableSchema, a: Seq<u8>, b: Seq<u8>)
    requires
        row_columns(schema, a) is Some,
        row_columns(schema, b) is Some,
        keyed_columns(schema, row_columns(schema, a).unwrap()),
        keyed_columns(schema, row_columns(schema, b).unwrap()),
        key_order(
            schema.columns@,
            row_columns(schema, a).unwrap(),
            row_columns(schema, b).unwrap(),
            0,
            schema.key_len(),
        ) == PkOrder::Equal,
    ensures
        ({
            let merged = merge_columns(
                schema,
                row_columns(schema, a).unwrap(),
                row_columns(schema, b).unwrap(),
                0,
                0,
            );
            &&& keyed_columns(schema, merged)
            &&& all_fit_schema(schema, merged)
            &&& all_typed(schema, merged)
            &&& rank_sorted(schema, merged)
            &&& key_order(schema.columns@, merged, row_columns(schema, a).unwrap(), 0, schema.key_len())
                == PkOrder::Equal
            &&& key_order(schema.columns@, merged, row_columns(schema, b).unwrap(), 0, schema.key_len())
                == PkOrder::Equal
        }),
{
    let a_columns = row_columns(schema, a).unwrap();
    let b_columns = row_columns(schema, b).unwrap();
    let merged = merge_columns(schema, a_columns, b_columns, 0, 0);
    lemma_row_fits_schema(schema, a);
    lemma_row_fits_schema(schema, b);
    lemma_merge_fits_schema(schema, a_columns, b_columns, 0, 0);
    lemma_merge_keeps_key(schema, a_columns, b_columns);
    crate::merge_laws::lemma_merge_by_column(schema, a_columns, b_columns, 0, 0);
    assert forall|t: int| 0 <= t < merged.len() implies typed(schema, #[trigger] merged[t]) by {
        assert(fits_schema(schema, merged[t]));
    }
}

/// Where two rows agree in the ids of their first `k` columns, the merged row
/// starts with the merged versions of these columns.
pub proof fn lemma_merge_leading_columns(
    schema: &TableSchema,
    a: Seq<ColumnView>,
    b: Seq<ColumnView>,
    t: int,
    k: int,
)
    requires
        0 <= t <= k,
        k <= a.len(),
        k <= b.len(),
        forall|i: int| 0 <= i < k ==> (#[trigger] a[i]).col_id == b[i].col_id,
    ensures
        merge_columns(schema, a, b, t, t).len() >= k - t,
        forall|i: int|
            0 <= i < k - t ==> #[trigger] merge_columns(schema, a, b, t, t)[i] == merged_column(
                a[t + i],
                b[t + i],
            ),
    decreases k - t,
{
    if t < k {
        lemma_merge_leading_columns(schema, a, b, t + 1, k);
        let rest = merge_columns(schema, a, b, t + 1, t + 1);
        let all = merge_columns(schema, a, b, t, t);
        assert(a[t].col_id == b[t].col_id);
        assert(all == seq![merged_column(a[t], b[t])] + rest);
        assert forall|i: int| 0 <= i < k - t implies #[trigger] all[i] == merged_column(
            a[t + i],
            b[t + i],
        ) by {
            if i > 0 {
                assert(all[i] == rest[i - 1]);
            }
        }
    }
}

/// The merged row of two keyed rows with one key is keyed, and its key is
/// theirs.
pub proof fn lemma_merge_keeps_key(schema: &TableSchema, a: Seq<ColumnView>, b: Seq<ColumnView>)
    requires
        has_key(schema, a),
        has_key(schema, b),
        key_order(schema.columns@, a, b, 0, schema.key_len()) == PkOrder::Equal,
    ensures
        has_key(schema, merge_columns(schema, a, b, 0, 0)),
        key_order(schema.columns@, merge_columns(schema, a, b, 0, 0), a, 0, schema.key_len())
            == PkOrder::Equal,
        key_order(schema.columns@, merge_columns(schema, a, b, 0, 0), b, 0, schema.key_len())
            == PkOrder::Equal,
{
    let k = schema.key_len();
    let merged = merge_columns(schema, a, b, 0, 0);
    lemma_key_len_bounds(schema.columns@, schema.columns@.len() as int);
    lemma_key_order_equal(schema.columns@, a, b, 0, k);
    assert forall|i: int| 0 <= i < k implies (#[trigger] a[i]).col_id == b[i].col_id by {
        assert(a[i].col_id == schema.columns@[i].col_id.0);
        assert(b[i].col_id == schema.columns@[i].col_id.0);
    }
    lemma_merge_leading_columns(schema, a, b, 0, k);
    assert forall|i: int| 0 <= i < k implies (#[trigger] merged[i]).col_id
        == schema.columns@[i].col_id.0 && merged[i].value is Some && merged[i].value.unwrap()
        == a[i].value.unwrap() && merged[i].value.unwrap() == b[i].value.unwrap() by {
        assert(merged[i] == merged_column(a[0 + i], b[0 + i]));
        assert(a[i].value.unwrap() == b[i].value.unwrap());
        assert(a[i].col_id == schema.columns@[i].col_id.0);
        assert(b[i].col_id == schema.columns@[i].col_id.0);
    }
    lemma_key_order_equal(schema.columns@, merged, a, 0, k);
    lemma_key_order_equal(schema.columns@, merged, b, 0, k);
}

} // verus!
