//! The algebra of merging: the order in which versions of a row are merged
//! does not matter.

use vstd::prelude::*;
use crate::column::merged_column;
use crate::column::ColumnView;
use crate::merge::lemma_merge_fits_schema;
use crate::merge::lemma_row_fits_schema;
use crate::merge::merge_columns;
use crate::merge::merged_row;
use crate::row::find_column;
use crate::row::lemma_assemble_round_trip;
use crate::row::in_order;
use crate::row::row_columns;
use crate::schema::lemma_first_with_id;
use crate::schema::lemma_key_len_bounds;
use crate::schema::lemma_rank_injective;
use crate::schema::TableSchema;

verus! {

/// Two versions of a row do not contradict each other: where both hold a
/// column with one timestamp, they hold the same column.
pub open spec fn agree(a: Seq<ColumnView>, b: Seq<ColumnView>) -> bool {
    forall|i: int, j: int|
        0 <= i < a.len() && 0 <= j < b.len() && (#[trigger] a[i]).col_id == (#[trigger] b[j]).col_id
            && a[i].timestamp == b[j].timestamp ==> a[i] == b[j]
}

/// What two versions of a row say of one column, merged.
pub open spec fn combine(x: Option<ColumnView>, y: Option<ColumnView>) -> Option<ColumnView> {
    match (x, y) {
        (Some(p), Some(q)) => Some(merged_column(p, q)),
        (Some(p), None) => Some(p),
        (None, _) => y,
    }
}

/// Merging two versions of a row that do not contradict each other gives the
/// same columns, whichever of them comes first.
pub proof fn lemma_merge_commutative(
    schema: &TableSchema,
    a: Seq<ColumnView>,
    b: Seq<ColumnView>,
    i: int,
    j: int,
)
    requires
        agree(a, b),
        0 <= i <= a.len(),
        0 <= j <= b.len(),
    ensures
        merge_columns(schema, a, b, i, j) == merge_columns(schema, b, a, j, i),
    decreases a.len() - i + b.len() - j,
{
    if i < a.len() && j < b.len() {
        if schema.rank(a[i].col_id) < schema.rank(b[j].col_id) {
            lemma_merge_commutative(schema, a, b, i + 1, j);
        } else if schema.rank(b[j].col_id) < schema.rank(a[i].col_id) {
            lemma_merge_commutative(schema, a, b, i, j + 1);
        } else {
            lemma_merge_commutative(schema, a, b, i + 1, j + 1);
            lemma_rank_injective(schema, a[i].col_id, b[j].col_id);
            assert(merged_column(a[i], b[j]) == merged_column(b[j], a[i]));
        }
    }
}

/// Looking for a column behind the first of a list is looking in the rest.
proof fn lemma_find_behind_first(head: ColumnView, rest: Seq<ColumnView>, col_id: u8, from: int)
    requires
        0 <= from,
    ensures
        find_column(seq![head] + rest, col_id, from + 1) == find_column(rest, col_id, from),
    decreases rest.len() - from,
{
    let all = seq![head] + rest;
    if from < rest.len() {
        assert(all[from + 1] == rest[from]);
        lemma_find_behind_first(head, rest, col_id, from + 1);
    }
}

/// Looking for a column in what is left when the first columns are skipped is
/// looking behind them.
proof fn lemma_find_in_skip(columns: Seq<ColumnView>, skipped: int, col_id: u8, from: int)
    requires
        0 <= skipped <= columns.len(),
        0 <= from,
    ensures
        find_column(columns.skip(skipped), col_id, from) == find_column(
            columns,
            col_id,
            skipped + from,
        ),
    decreases columns.len() - skipped - from,
{
    let rest = columns.skip(skipped);
    if from < rest.len() {
        assert(rest[from] == columns[skipped + from]);
        lemma_find_in_skip(columns, skipped, col_id, from + 1);
    }
}

/// In columns that stand in order, an id whose place lies before that of the
/// column at `from` is not found from there on.
proof fn lemma_find_below(schema: &TableSchema, columns: Seq<ColumnView>, col_id: u8, from: int)
    requires
        in_order(schema, columns),
        0 <= from,
        from < columns.len() ==> schema.rank(columns[from].col_id) > schema.rank(col_id),
    ensures
        find_column(columns, col_id, from) is None,
    decreases columns.len() - from,
{
    if from < columns.len() {
        if from + 1 < columns.len() {
            assert(schema.rank(columns[from].col_id) < schema.rank(columns[from + 1].col_id));
        }
        lemma_find_below(schema, columns, col_id, from + 1);
    }
}

/// A column that is found has the id that was looked for and stands in the
/// list, at the place that is handed back.
proof fn lemma_found(columns: Seq<ColumnView>, col_id: u8, from: int) -> (at: int)
    requires
        0 <= from,
        find_column(columns, col_id, from) is Some,
    ensures
        from <= at < columns.len(),
        find_column(columns, col_id, from) == Some(columns[at]),
        columns[at].col_id == col_id,
    decreases columns.len() - from,
{
    if columns[from].col_id == col_id {
        from
    } else {
        lemma_found(columns, col_id, from + 1)
    }
}

/// In columns that stand in order, each column is found by its id.
proof fn lemma_find_each(schema: &TableSchema, columns: Seq<ColumnView>, at: int, from: int)
    requires
        in_order(schema, columns),
        0 <= from <= at < columns.len(),
    ensures
        find_column(columns, columns[at].col_id, from) == Some(columns[at]),
    decreases at - from,
{
    if from < at {
        assert(schema.rank(columns[from].col_id) < schema.rank(columns[at].col_id));
        lemma_find_each(schema, columns, at, from + 1);
    }
}

/// The least place, in the order in which a row stores its columns, that
/// merging from the places `i` and `j` on can give.
pub open spec fn least_rank(
    schema: &TableSchema,
    a: Seq<ColumnView>,
    b: Seq<ColumnView>,
    i: int,
    j: int,
) -> int {
    if i < a.len() && j < b.len() {
        if schema.rank(a[i].col_id) < schema.rank(b[j].col_id) {
            schema.rank(a[i].col_id)
        } else {
            schema.rank(b[j].col_id)
        }
    } else if i < a.len() {
        schema.rank(a[i].col_id)
    } else if j < b.len() {
        schema.rank(b[j].col_id)
    } else {
        schema.key_len() + 256
    }
}

/// Merging two versions whose columns stand in order gives columns in order,
/// and what the merged row says of a column is what the two versions say of
/// it, merged.
pub proof fn lemma_merge_by_column(
    schema: &TableSchema,
    a: Seq<ColumnView>,
    b: Seq<ColumnView>,
    i: int,
    j: int,
)
    requires
        in_order(schema, a),
        in_order(schema, b),
        0 <= i <= a.len(),
        0 <= j <= b.len(),
    ensures
        in_order(schema, merge_columns(schema, a, b, i, j)),
        forall|t: int|
            0 <= t < merge_columns(schema, a, b, i, j).len() ==> schema.rank(
                (#[trigger] merge_columns(schema, a, b, i, j)[t]).col_id,
            ) >= least_rank(schema, a, b, i, j),
        forall|col_id: u8| #[trigger]
            find_column(merge_columns(schema, a, b, i, j), col_id, 0) == combine(
                find_column(a, col_id, i),
                find_column(b, col_id, j),
            ),
    decreases a.len() - i + b.len() - j,
{
    let merged = merge_columns(schema, a, b, i, j);
    if i == a.len() {
        assert(merged == b.skip(j));
        assert forall|col_id: u8| #[trigger]
            find_column(merged, col_id, 0) == combine(
                find_column(a, col_id, i),
                find_column(b, col_id, j),
            ) by {
            lemma_find_in_skip(b, j, col_id, 0);
        }
        assert forall|t: int| 0 <= t < merged.len() implies schema.rank(
            (#[trigger] merged[t]).col_id,
        ) >= least_rank(schema, a, b, i, j) by {
            if t > 0 {
                assert(schema.rank(b[j].col_id) < schema.rank(b[j + t].col_id));
            }
        }
        assert forall|s: int, t: int| 0 <= s < t < merged.len() implies schema.rank(
            (#[trigger] merged[s]).col_id,
        ) < schema.rank((#[trigger] merged[t]).col_id) by {
            assert(schema.rank(b[j + s].col_id) < schema.rank(b[j + t].col_id));
        }
    } else if j == b.len() {
        assert(merged == a.skip(i));
        assert forall|col_id: u8| #[trigger]
            find_column(merged, col_id, 0) == combine(
                find_column(a, col_id, i),
                find_column(b, col_id, j),
            ) by {
            lemma_find_in_skip(a, i, col_id, 0);
        }
        assert forall|t: int| 0 <= t < merged.len() implies schema.rank(
            (#[trigger] merged[t]).col_id,
        ) >= least_rank(schema, a, b, i, j) by {
            if t > 0 {
                assert(schema.rank(a[i].col_id) < schema.rank(a[i + t].col_id));
            }
        }
        assert forall|s: int, t: int| 0 <= s < t < merged.len() implies schema.rank(
            (#[trigger] merged[s]).col_id,
        ) < schema.rank((#[trigger] merged[t]).col_id) by {
            assert(schema.rank(a[i + s].col_id) < schema.rank(a[i + t].col_id));
        }
    } else {
        let rank_a = schema.rank(a[i].col_id);
        let rank_b = schema.rank(b[j].col_id);
        let next_i = if rank_a <= rank_b {
            i + 1
        } else {
            i
        };
        let next_j = if rank_b <= rank_a {
            j + 1
        } else {
            j
        };
        let head = if rank_a < rank_b {
            a[i]
        } else if rank_b < rank_a {
            b[j]
        } else {
            merged_column(a[i], b[j])
        };
        if rank_a == rank_b {
            lemma_rank_injective(schema, a[i].col_id, b[j].col_id);
        }
        let rest = merge_columns(schema, a, b, next_i, next_j);
        lemma_merge_by_column(schema, a, b, next_i, next_j);
        assert(merged == seq![head] + rest);
        if next_i < a.len() && next_i > i {
            assert(schema.rank(a[i].col_id) < schema.rank(a[next_i].col_id));
        }
        if next_j < b.len() && next_j > j {
            assert(schema.rank(b[j].col_id) < schema.rank(b[next_j].col_id));
        }
        lemma_key_len_bounds(schema.columns@, schema.columns@.len() as int);
        lemma_first_with_id(schema.columns@, head.col_id, schema.key_len());
        assert(least_rank(schema, a, b, next_i, next_j) > schema.rank(head.col_id));
        assert forall|t: int| 0 <= t < merged.len() implies schema.rank(
            (#[trigger] merged[t]).col_id,
        ) >= least_rank(schema, a, b, i, j) by {
            if t > 0 {
                assert(merged[t] == rest[t - 1]);
            }
        }
        assert forall|s: int, t: int| 0 <= s < t < merged.len() implies schema.rank(
            (#[trigger] merged[s]).col_id,
        ) < schema.rank((#[trigger] merged[t]).col_id) by {
            assert(merged[t] == rest[t - 1]);
            if s > 0 {
                assert(merged[s] == rest[s - 1]);
            }
        }
        assert forall|col_id: u8| #[trigger]
            find_column(merged, col_id, 0) == combine(
                find_column(a, col_id, i),
                find_column(b, col_id, j),
            ) by {
            lemma_find_behind_first(head, rest, col_id, 0);
            assert(merged[0] == head);
            if head.col_id == col_id {
                if next_i == i {
                    lemma_find_below(schema, a, col_id, i);
                }
                if next_j == j {
                    lemma_find_below(schema, b, col_id, j);
                }
            }
        }
    }
}

/// Two lists of columns that stand in order and say the same of every
/// column agree up to the place `k`, if they agree before it.
proof fn lemma_same_columns_at(schema: &TableSchema, s: Seq<ColumnView>, t: Seq<ColumnView>, k: int)
    requires
        in_order(schema, s),
        in_order(schema, t),
        forall|col_id: u8| #[trigger] find_column(s, col_id, 0) == find_column(t, col_id, 0),
        0 <= k <= s.len(),
        k <= t.len(),
        forall|m: int| 0 <= m < k ==> #[trigger] s[m] == t[m],
    ensures
        k < s.len() <==> k < t.len(),
        k < s.len() ==> s[k] == t[k],
{
    if k < s.len() {
        lemma_column_is_shared(schema, s, t, k);
    }
    if k < t.len() {
        lemma_column_is_shared(schema, t, s, k);
    }
}

/// The column at the place `k` of one list stands at that place of the other.
proof fn lemma_column_is_shared(schema: &TableSchema, s: Seq<ColumnView>, t: Seq<ColumnView>, k: int)
    requires
        in_order(schema, s),
        in_order(schema, t),
        forall|col_id: u8| #[trigger] find_column(s, col_id, 0) == find_column(t, col_id, 0),
        0 <= k < s.len(),
        k <= t.len(),
        forall|m: int| 0 <= m < k ==> #[trigger] s[m] == #[trigger] t[m],
    ensures
        k < t.len(),
        s[k] == t[k],
{
    let col_id = s[k].col_id;
    lemma_find_each(schema, s, k, 0);
    assert(find_column(t, col_id, 0) == Some(s[k]));
    let at = lemma_found(t, col_id, 0);
    if at < k {
        assert(s[at] == t[at]);
        assert(schema.rank(s[at].col_id) < schema.rank(s[k].col_id));
    } else if at > k {
        let other = t[k].col_id;
        assert(schema.rank(t[k].col_id) < schema.rank(t[at].col_id));
        lemma_find_each(schema, t, k, 0);
        assert(find_column(s, other, 0) == Some(t[k]));
        let back = lemma_found(s, other, 0);
        if back < k {
            assert(s[back] == t[back]);
            assert(schema.rank(t[back].col_id) < schema.rank(t[k].col_id));
        } else if back > k {
            assert(schema.rank(s[k].col_id) < schema.rank(s[back].col_id));
        }
    }
}

/// Two lists of columns that stand in order and say the same of every
/// column are one list.
pub proof fn lemma_same_columns(
    schema: &TableSchema,
    s: Seq<ColumnView>,
    t: Seq<ColumnView>,
    k: int,
)
    requires
        in_order(schema, s),
        in_order(schema, t),
        forall|col_id: u8| #[trigger] find_column(s, col_id, 0) == find_column(t, col_id, 0),
        0 <= k <= s.len(),
        k <= t.len(),
        forall|m: int| 0 <= m < k ==> #[trigger] s[m] == #[trigger] t[m],
    ensures
        s == t,
    decreases s.len() - k,
{
    lemma_same_columns_at(schema, s, t, k);
    if k < s.len() {
        lemma_same_columns(schema, s, t, k + 1);
    } else {
        assert(s =~= t);
    }
}

/// What two versions say of a column does not contradict: where both hold
/// it with one timestamp, they hold the same.
pub open spec fn compatible(x: Option<ColumnView>, y: Option<ColumnView>) -> bool {
    x is Some && y is Some && x.unwrap().timestamp == y.unwrap().timestamp ==> x == y
}

/// Merging what three versions say of a column gives the same, however the
/// three are grouped.
pub proof fn lemma_combine_associative(
    x: Option<ColumnView>,
    y: Option<ColumnView>,
    z: Option<ColumnView>,
)
    requires
        compatible(x, y),
        compatible(y, z),
        compatible(x, z),
    ensures
        combine(combine(x, y), z) == combine(x, combine(y, z)),
{
}

/// What two versions that do not contradict each other say of a column does
/// not contradict.
proof fn lemma_agree_at(a: Seq<ColumnView>, b: Seq<ColumnView>, col_id: u8)
    requires
        agree(a, b),
    ensures
        compatible(find_column(a, col_id, 0), find_column(b, col_id, 0)),
{
    if find_column(a, col_id, 0) is Some && find_column(b, col_id, 0) is Some {
        let i = lemma_found(a, col_id, 0);
        let j = lemma_found(b, col_id, 0);
        assert(a[i].col_id == b[j].col_id);
    }
}

/// Merging three versions of a row whose columns stand in order, and that do
/// not contradict each other, gives the same columns,
/// however the three are grouped.
pub proof fn lemma_merge_associative(
    schema: &TableSchema,
    a: Seq<ColumnView>,
    b: Seq<ColumnView>,
    c: Seq<ColumnView>,
)
    requires
        in_order(schema, a),
        in_order(schema, b),
        in_order(schema, c),
        agree(a, b),
        agree(b, c),
        agree(a, c),
    ensures
        merge_columns(schema, merge_columns(schema, a, b, 0, 0), c, 0, 0) == merge_columns(
            schema,
            a,
            merge_columns(schema, b, c, 0, 0),
            0,
            0,
        ),
{
    let ab = merge_columns(schema, a, b, 0, 0);
    let bc = merge_columns(schema, b, c, 0, 0);
    let left = merge_columns(schema, ab, c, 0, 0);
    let right = merge_columns(schema, a, bc, 0, 0);
    lemma_merge_by_column(schema, a, b, 0, 0);
    lemma_merge_by_column(schema, b, c, 0, 0);
    lemma_merge_by_column(schema, ab, c, 0, 0);
    lemma_merge_by_column(schema, a, bc, 0, 0);
    assert forall|col_id: u8| #[trigger]
        find_column(left, col_id, 0) == find_column(right, col_id, 0) by {
        let x = find_column(a, col_id, 0);
        let y = find_column(b, col_id, 0);
        let z = find_column(c, col_id, 0);
        lemma_agree_at(a, b, col_id);
        lemma_agree_at(b, c, col_id);
        lemma_agree_at(a, c, col_id);
        lemma_combine_associative(x, y, z);
        assert(find_column(ab, col_id, 0) == combine(x, y));
        assert(find_column(bc, col_id, 0) == combine(y, z));
        assert(find_column(left, col_id, 0) == combine(find_column(ab, col_id, 0), z));
        assert(find_column(right, col_id, 0) == combine(x, find_column(bc, col_id, 0)));
    }
    lemma_same_columns(schema, left, right, 0);
}

/// The columns of the row that two rows give when they are merged are the
/// merged columns of the two.
pub proof fn lemma_merged_row_columns(schema: &TableSchema, a: Seq<u8>, b: Seq<u8>)
    requires
        row_columns(schema, a) is Some,
        row_columns(schema, b) is Some,
    ensures
        row_columns(schema, merged_row(schema, a, b)) == Some(
            merge_columns(schema, row_columns(schema, a).unwrap(), row_columns(schema, b).unwrap(), 0, 0),
        ),
{
    let a_columns = row_columns(schema, a).unwrap();
    let b_columns = row_columns(schema, b).unwrap();
    lemma_row_fits_schema(schema, a);
    lemma_row_fits_schema(schema, b);
    lemma_merge_fits_schema(schema, a_columns, b_columns, 0, 0);
    lemma_assemble_round_trip(schema, merge_columns(schema, a_columns, b_columns, 0, 0));
}

/// Merging is commutative: two rows that do not contradict each other give
/// the same row, whichever of them is merged into the other.
pub proof fn lemma_row_merge_commutative(schema: &TableSchema, a: Seq<u8>, b: Seq<u8>)
    requires
        row_columns(schema, a) is Some,
        row_columns(schema, b) is Some,
        agree(row_columns(schema, a).unwrap(), row_columns(schema, b).unwrap()),
    ensures
        merged_row(schema, a, b) == merged_row(schema, b, a),
{
    lemma_merge_commutative(
        schema,
        row_columns(schema, a).unwrap(),
        row_columns(schema, b).unwrap(),
        0,
        0,
    );
}

/// Merging is associative: three rows whose columns stand in order, and that
/// do not contradict each other, give the same row,
/// however the three are grouped.
pub proof fn lemma_row_merge_associative(
    schema: &TableSchema,
    a: Seq<u8>,
    b: Seq<u8>,
    c: Seq<u8>,
)
    requires
        row_columns(schema, a) is Some,
        row_columns(schema, b) is Some,
        row_columns(schema, c) is Some,
        in_order(schema, row_columns(schema, a).unwrap()),
        in_order(schema, row_columns(schema, b).unwrap()),
        in_order(schema, row_columns(schema, c).unwrap()),
        agree(row_columns(schema, a).unwrap(), row_columns(schema, b).unwrap()),
        agree(row_columns(schema, b).unwrap(), row_columns(schema, c).unwrap()),
        agree(row_columns(schema, a).unwrap(), row_columns(schema, c).unwrap()),
    ensures
        merged_row(schema, merged_row(schema, a, b), c) == merged_row(
            schema,
            a,
            merged_row(schema, b, c),
        ),
{
    lemma_merged_row_columns(schema, a, b);
    lemma_merged_row_columns(schema, b, c);
    lemma_merge_associative(
        schema,
        row_columns(schema, a).unwrap(),
        row_columns(schema, b).unwrap(),
        row_columns(schema, c).unwrap(),
    );
}

} // verus!
