//! Rows: the layout of a row's buffer, the view that reads it, and the owned
//! row that is assembled from a list of columns.

use vstd::prelude::*;
use std::sync::Arc;
use crate::column::column_at;
use crate::column::column_bytes;
use crate::column::column_views;
use crate::column::expiry_seconds;
use crate::column::lemma_view_encodable;
use crate::column::lemma_column_round_trip;
use crate::column::read_column;
use crate::column::write_value;
use crate::column::ColumnFlags;
use crate::column::ColumnData;
use crate::column::ColumnView;
use crate::column::RowFlags;
use crate::error::HtError;
use crate::error::HtResult;
use crate::pk::holds_key;
use crate::pk::key_ids_distinct;
use crate::pk::lemma_ordered_columns_keyed;
use crate::pk::row_keyed;
use crate::primitives::fixed_u32_bytes;
use crate::primitives::fixed_u32_value;
use crate::primitives::fixed_u64_bytes;
use crate::primitives::fixed_u64_value;
use crate::primitives::lemma_fixed_u32_round_trip;
use crate::primitives::lemma_fixed_u64_round_trip;
use crate::primitives::varint_bytes;
use crate::primitives::DecodePrimitives;
use crate::primitives::EncodePrimitives;
use crate::schema::ColumnId;
use crate::schema::TableSchema;
use crate::time::MergeTimestamp;
use crate::time::TtlTimestamp;
use crate::primitives::lemma_varint_value_low;
use crate::column::ValueView;

verus! {

/// The length of the header of the row in `s`: the flags and the timestamp,
/// and the expiry where the flags announce one.
pub open spec fn header_len(s: Seq<u8>) -> int {
    if RowFlags(s[0]).has_row_expiry() {
        13
    } else {
        9
    }
}

/// The bytes are long enough to hold a row's header.
pub open spec fn header_fits(s: Seq<u8>) -> bool {
    s.len() >= 9 && s.len() >= header_len(s)
}

/// The timestamp in the header of the row in `s`.
pub open spec fn header_timestamp(s: Seq<u8>) -> u64 {
    fixed_u64_value(s, 1) as u64
}

/// The expiry in the header of the row in `s`, if it has one.
pub open spec fn header_expiry(s: Seq<u8>) -> Option<u32> {
    if RowFlags(s[0]).has_row_expiry() {
        Some(fixed_u32_value(s, 9) as u32)
    } else {
        None
    }
}

/// The columns that stand in the row buffer `s` from `offs` to its end;
/// `None` where the bytes from `offs` on are not a sequence of columns of the
/// schema.
pub open spec fn columns_from(
    schema: &TableSchema,
    s: Seq<u8>,
    offs: int,
    row_timestamp: u64,
    row_expiry: Option<u32>,
) -> Option<Seq<ColumnView>>
    decreases s.len() - offs,
{
    if offs >= s.len() {
        Some(Seq::empty())
    } else {
        match column_at(schema, s, offs, row_timestamp, row_expiry) {
            Some((c, next)) => if next <= offs || next > s.len() {
                None
            } else {
                match columns_from(schema, s, next, row_timestamp, row_expiry) {
                    Some(rest) => Some(seq![c] + rest),
                    None => None,
                }
            },
            None => None,
        }
    }
}

/// The columns of the row in `s`, in the order in which they are stored;
/// `None` where `s` is not a row of the schema.
pub open spec fn row_columns(schema: &TableSchema, s: Seq<u8>) -> Option<Seq<ColumnView>> {
    if header_fits(s) {
        columns_from(schema, s, header_len(s), header_timestamp(s), header_expiry(s))
    } else {
        None
    }
}

/// A column always takes at least its id and its flags.
pub proof fn lemma_column_at_advances(
    schema: &TableSchema,
    s: Seq<u8>,
    offs: int,
    row_timestamp: u64,
    row_expiry: Option<u32>,
)
    requires
        column_at(schema, s, offs, row_timestamp, row_expiry) is Some,
    ensures
        offs + 2 <= (column_at(schema, s, offs, row_timestamp, row_expiry)->0).1 <= s.len(),
{
    let c = (column_at(schema, s, offs, row_timestamp, row_expiry)->0).0;
    match c.value {
        Some(v) => {
            let flags = ColumnFlags(s[offs + 1]);
            let at_expiry = if flags.has_col_timestamp() {
                offs + 2 + 8
            } else {
                offs + 2
            };
            let at_value = if flags.has_col_expiry() {
                at_expiry + 4
            } else {
                at_expiry
            };
            match v {
                ValueView::Int(_) => {
                    lemma_varint_value_low(s, at_value);
                },
                ValueView::BigInt(_) => {
                    lemma_varint_value_low(s, at_value);
                },
                ValueView::Text(_) => {
                    lemma_varint_value_low(s, at_value);
                },
                ValueView::Boolean(_) => {},
            }
        },
        None => {},
    }
}

/// A row's buffer and the schema that says how to read it.
pub struct RowData<'a> {
    pub schema: Arc<TableSchema>,
    pub buf: &'a [u8],
}

impl<'a> RowData<'a> {
    /// The buffer holds a row of the schema: a header and then columns of the
    /// schema up to its end.
    pub open spec fn wf(&self) -> bool {
        row_columns(&*self.schema, self.buf@) is Some
    }

    /// The columns of the row, in the order in which they are stored.
    pub open spec fn spec_columns(&self) -> Seq<ColumnView> {
        row_columns(&*self.schema, self.buf@).unwrap()
    }

    /// The view of the row in `buf`, read by `schema`.
    pub fn from_view<'b>(schema: &Arc<TableSchema>, buf: &'b [u8]) -> (r: RowData<'b>)
        ensures
            r.schema == *schema,
            r.buf@ == buf@,
    {
        RowData { schema: schema.clone(), buf }
    }

    /// The schema that the row is read by.
    pub fn schema(&self) -> (r: &TableSchema)
        ensures
            *r == *self.schema,
    {
        &*self.schema
    }

    /// The flags at the start of the row.
    pub fn flags(&self) -> (r: RowFlags)
        requires
            self.buf@.len() >= 1,
        ensures
            r.0 == self.buf@[0],
    {
        RowFlags(self.buf[0])
    }

    /// The timestamp in the row's header, which stands in for the timestamp of
    /// each column that does not carry its own.
    pub fn timestamp(&self) -> (r: MergeTimestamp)
        requires
            self.buf@.len() >= 9,
        ensures
            r.ticks == header_timestamp(self.buf@),
    {
        let mut offs: usize = 1;
        MergeTimestamp::from_ticks(self.buf.decode_fixed_u64(&mut offs))
    }

    /// The expiry in the row's header, if it has one; columns can refer to it.
    pub fn expiry(&self) -> (r: Option<TtlTimestamp>)
        requires
            header_fits(self.buf@),
        ensures
            expiry_seconds(r) == header_expiry(self.buf@),
    {
        if self.flags().has_row_expiry() {
            let mut offs: usize = 9;
            Some(TtlTimestamp::new(self.buf.decode_fixed_u32(&mut offs)))
        } else {
            None
        }
    }

    /// Reads the column at `offs` and moves `offs` behind it. The timestamp
    /// and the expiry of the row stand in where the column refers to them.
    pub fn read_col(
        &self,
        row_timestamp: MergeTimestamp,
        row_expiry: Option<TtlTimestamp>,
        offs: &mut usize,
    ) -> (r: ColumnData<'a>)
        requires
            column_at(
                &*self.schema,
                self.buf@,
                *old(offs) as int,
                row_timestamp.ticks,
                expiry_seconds(row_expiry),
            ) is Some,
        ensures
            column_at(
                &*self.schema,
                self.buf@,
                *old(offs) as int,
                row_timestamp.ticks,
                expiry_seconds(row_expiry),
            ) == Some((r@, *final(offs) as int)),
    {
        match read_column(&*self.schema, self.buf, *offs, row_timestamp, row_expiry) {
            Some((c, next)) => {
                *offs = next;
                c
            },
            // not reached: the caller has shown that a column is there
            None => ColumnData {
                col_id: ColumnId(0),
                timestamp: row_timestamp,
                expiry: None,
                value: None,
            },
        }
    }

    /// The offset at which the columns start, if the buffer holds a header.
    pub fn offs_start_column_data(&self) -> (r: Option<usize>)
        ensures
            r is Some <==> header_fits(self.buf@),
            r matches Some(offs) ==> offs == header_len(self.buf@),
    {
        if self.buf.len() < 9 {
            return None;
        }
        let offs: usize = if self.flags().has_row_expiry() {
            13
        } else {
            9
        };
        if self.buf.len() < offs {
            None
        } else {
            Some(offs)
        }
    }

    /// Appends the row to `sink` as it stands in a file: the varint of the
    /// buffer's length, then the buffer.
    pub fn write_to(&self, sink: &mut Vec<u8>)
        ensures
            final(sink)@ == old(sink)@ + framed(self.buf@),
    {
        sink.encode_varint_usize(self.buf.len());
        sink.extend_from_slice(self.buf);
        assert(sink@ =~= old(sink)@ + framed(self.buf@));
    }

    /// Checks that the buffer holds a row of the schema.
    pub fn validate(&self) -> (r: HtResult<()>)
        ensures
            r is Ok <==> self.wf(),
            r matches Err(e) ==> e is FileIntegrity,
    {
        let start = match self.offs_start_column_data() {
            Some(offs) => offs,
            None => {
                return Err(HtError::file_integrity("the row has no complete header"));
            },
        };
        let row_timestamp = self.timestamp();
        let row_expiry = self.expiry();
        let ghost s = self.buf@;
        let ghost ts = header_timestamp(s);
        let ghost exp = header_expiry(s);
        let mut offs: usize = start;
        while offs < self.buf.len()
            invariant
                s == self.buf@,
                header_fits(s),
                start == header_len(s),
                ts == header_timestamp(s),
                exp == header_expiry(s),
                row_timestamp.ticks == ts,
                expiry_seconds(row_expiry) == exp,
                offs <= self.buf@.len(),
                columns_from(&*self.schema, s, start as int, ts, exp) is Some <==> columns_from(
                    &*self.schema,
                    s,
                    offs as int,
                    ts,
                    exp,
                ) is Some,
            decreases self.buf@.len() - offs,
        {
            match read_column(&*self.schema, self.buf, offs, row_timestamp, row_expiry) {
                Some((_, next)) => {
                    proof {
                        lemma_column_at_advances(&*self.schema, s, offs as int, ts, exp);
                    }
                    offs = next;
                },
                None => {
                    return Err(HtError::file_integrity("the row holds a malformed column"));
                },
            }
        }
        Ok(())
    }
}

/// The bytes of a row in a file: the varint of its length, then the row.
pub open spec fn framed(row: Seq<u8>) -> Seq<u8> {
    varint_bytes(row.len()) + row
}

/// The first of the columns from `from` on that has the id `col_id`.
pub open spec fn find_column(columns: Seq<ColumnView>, col_id: u8, from: int) -> Option<ColumnView>
    decreases columns.len() - from,
{
    if from < 0 || from >= columns.len() {
        None
    } else if columns[from].col_id == col_id {
        Some(columns[from])
    } else {
        find_column(columns, col_id, from + 1)
    }
}

/// A cursor over the columns of a row, in the order in which they are stored.
pub struct RowColumnIter<'a> {
    row: &'a RowData<'a>,
    offs: usize,
}

impl<'a> RowColumnIter<'a> {
    /// The cursor stands at the start of a column of a well-formed row, or at
    /// the row's end.
    pub closed spec fn wf(&self) -> bool {
        &&& header_fits(self.row.buf@)
        &&& self.offs <= self.row.buf@.len()
        &&& columns_from(
            &*self.row.schema,
            self.row.buf@,
            self.offs as int,
            header_timestamp(self.row.buf@),
            header_expiry(self.row.buf@),
        ) is Some
    }

    /// The columns that the cursor has not handed out yet.
    pub closed spec fn remaining(&self) -> Seq<ColumnView> {
        columns_from(
            &*self.row.schema,
            self.row.buf@,
            self.offs as int,
            header_timestamp(self.row.buf@),
            header_expiry(self.row.buf@),
        ).unwrap()
    }

    /// A cursor at the first column of `row`.
    pub fn new(row: &'a RowData<'a>) -> (r: RowColumnIter<'a>)
        requires
            row.wf(),
        ensures
            r.wf(),
            r.remaining() == row.spec_columns(),
    {
        let offs: usize = if row.flags().has_row_expiry() {
            13
        } else {
            9
        };
        RowColumnIter { row, offs }
    }

    /// Hands out the column at the cursor and moves behind it; nothing at the
    /// row's end.
    pub fn next(&mut self) -> (r: Option<ColumnData<'a>>)
        requires
            old(self).wf(),
        ensures
            final(self).wf(),
            r is Some <==> old(self).remaining().len() > 0,
            r matches Some(c) ==> c@ == old(self).remaining()[0],
            r is Some ==> final(self).remaining() == old(self).remaining().skip(1),
            r is None ==> final(self).remaining() == old(self).remaining(),
    {
        if self.offs >= self.row.buf.len() {
            return None;
        }
        let row_timestamp = self.row.timestamp();
        let row_expiry = self.row.expiry();
        let ghost s = self.row.buf@;
        let ghost before = self.offs as int;
        match read_column(&*self.row.schema, self.row.buf, self.offs, row_timestamp, row_expiry) {
            Some((c, next)) => {
                proof {
                    let rest = columns_from(
                        &*self.row.schema,
                        s,
                        next as int,
                        header_timestamp(s),
                        header_expiry(s),
                    ).unwrap();
                    assert((seq![c@] + rest).skip(1) =~= rest);
                }
                self.offs = next;
                Some(c)
            },
            None => None,
        }
    }
}

impl<'a> RowData<'a> {
    /// A cursor over the columns of the row, in the order in which they are
    /// stored.
    pub fn columns(&'a self) -> (r: RowColumnIter<'a>)
        requires
            self.wf(),
        ensures
            r.wf(),
            r.remaining() == self.spec_columns(),
    {
        RowColumnIter::new(self)
    }

    /// The columns of the row, in the order in which they are stored.
    pub fn column_list(&'a self) -> (r: Vec<ColumnData<'a>>)
        requires
            self.wf(),
        ensures
            column_views(r@) == self.spec_columns(),
    {
        let mut out: Vec<ColumnData<'a>> = Vec::new();
        let mut iter = RowColumnIter::new(self);
        loop
            invariant
                iter.wf(),
                column_views(out@) + iter.remaining() == self.spec_columns(),
            ensures
                column_views(out@) == self.spec_columns(),
            decreases iter.remaining().len(),
        {
            let ghost before = column_views(out@);
            let ghost rest = iter.remaining();
            match iter.next() {
                Some(c) => {
                    out.push(c);
                    assert(column_views(out@) =~= before.push(c@));
                    assert(before.push(rest[0]) + rest.skip(1) =~= before + rest);
                },
                None => {
                    assert(before + rest =~= before);
                    break;
                },
            }
        }
        out
    }

    /// The first column of the row that has the id `col_id`.
    pub fn read_col_by_id(&'a self, col_id: ColumnId) -> (r: Option<ColumnData<'a>>)
        requires
            self.wf(),
        ensures
            r is Some <==> find_column(self.spec_columns(), col_id.0, 0) is Some,
            r matches Some(c) ==> find_column(self.spec_columns(), col_id.0, 0) == Some(c@),
    {
        let mut iter = RowColumnIter::new(self);
        let ghost all = self.spec_columns();
        let ghost mut seen: int = 0;
        loop
            invariant
                iter.wf(),
                all == self.spec_columns(),
                0 <= seen <= all.len(),
                iter.remaining() == all.skip(seen),
                find_column(all, col_id.0, 0) == find_column(all, col_id.0, seen),
            decreases iter.remaining().len(),
        {
            match iter.next() {
                Some(c) => {
                    assert(all.skip(seen)[0] == all[seen]);
                    if c.col_id.0 == col_id.0 {
                        return Some(c);
                    }
                    proof {
                        assert(all.skip(seen).skip(1) =~= all.skip(seen + 1));
                        seen = seen + 1;
                    }
                },
                None => {
                    return None;
                },
            }
        }
    }
}

/// How often `v` stands among the first `n` of `s`.
pub open spec fn occurrences(s: Seq<u64>, v: u64, n: int) -> nat
    decreases n,
{
    if n <= 0 {
        0
    } else {
        occurrences(s, v, n - 1) + (if s[n - 1] == v {
            1nat
        } else {
            0nat
        })
    }
}

/// The place of the value that is most frequent in `s`, chosen among the
/// first `n` places; of several that are equally frequent, the first.
pub open spec fn most_frequent_index(s: Seq<u64>, n: int) -> int
    decreases n,
{
    if n <= 1 {
        0
    } else {
        let best = most_frequent_index(s, n - 1);
        if occurrences(s, s[n - 1], s.len() as int) > occurrences(s, s[best], s.len() as int) {
            n - 1
        } else {
            best
        }
    }
}

/// The value that is most frequent in `s`; of several that are equally
/// frequent, the one that stands first.
pub open spec fn most_frequent(s: Seq<u64>) -> u64 {
    s[most_frequent_index(s, s.len() as int)]
}

/// What `most_frequent_index` chooses among the first `n` places is one of
/// them, no value at one of them is more frequent, and none before it is as
/// frequent.
pub proof fn lemma_most_frequent_index(s: Seq<u64>, n: int)
    requires
        1 <= n <= s.len(),
    ensures
        0 <= most_frequent_index(s, n) < n,
        forall|j: int|
            0 <= j < n ==> occurrences(s, #[trigger] s[j], s.len() as int) <= occurrences(
                s,
                s[most_frequent_index(s, n)],
                s.len() as int,
            ),
        forall|j: int|
            0 <= j < most_frequent_index(s, n) ==> occurrences(s, #[trigger] s[j], s.len() as int)
                < occurrences(s, s[most_frequent_index(s, n)], s.len() as int),
    decreases n,
{
    if n > 1 {
        lemma_most_frequent_index(s, n - 1);
    }
}

/// Counts how often `v` stands in `values`.
fn count_of(values: &Vec<u64>, v: u64) -> (r: usize)
    ensures
        r == occurrences(values@, v, values@.len() as int),
{
    let mut count: usize = 0;
    let mut i: usize = 0;
    while i < values.len()
        invariant
            i <= values.len(),
            count <= i,
            count == occurrences(values@, v, i as int),
        decreases values.len() - i,
    {
        if values[i] == v {
            count = count + 1;
        }
        i = i + 1;
    }
    count
}

/// The value that is most frequent in `values`; of several that are equally
/// frequent, the one that stands first.
pub fn most_frequent_value(values: &Vec<u64>) -> (r: u64)
    requires
        values@.len() > 0,
    ensures
        r == most_frequent(values@),
{
    let mut best: usize = 0;
    let mut best_count: usize = count_of(values, values[0]);
    let mut i: usize = 1;
    while i < values.len()
        invariant
            1 <= i <= values.len(),
            best == most_frequent_index(values@, i as int),
            best < i,
            best_count == occurrences(values@, values@[best as int], values@.len() as int),
        decreases values.len() - i,
    {
        let count = count_of(values, values[i]);
        if count > best_count {
            best = i;
            best_count = count;
        }
        i = i + 1;
    }
    values[best]
}

/// The timestamps of the columns, in their order.
pub open spec fn timestamps_of(columns: Seq<ColumnView>) -> Seq<u64> {
    Seq::new(columns.len(), |i: int| columns[i].timestamp)
}

/// The expiries of those of the first `n` columns that have one, in their
/// order.
pub open spec fn expiries_of(columns: Seq<ColumnView>, n: int) -> Seq<u64>
    decreases n,
{
    if n <= 0 {
        Seq::empty()
    } else {
        match columns[n - 1].expiry {
            Some(e) => expiries_of(columns, n - 1).push(e as u64),
            None => expiries_of(columns, n - 1),
        }
    }
}

/// The timestamp that a row of these columns carries in its header: the most
/// frequent of the columns' timestamps.
pub open spec fn row_timestamp_of(columns: Seq<ColumnView>) -> u64 {
    most_frequent(timestamps_of(columns))
}

/// The expiry that a row of these columns carries in its header: the most
/// frequent of the columns' expiries, if any column has one.
pub open spec fn row_expiry_of(columns: Seq<ColumnView>) -> Option<u32> {
    let expiries = expiries_of(columns, columns.len() as int);
    if expiries.len() == 0 {
        None
    } else {
        Some(most_frequent(expiries) as u32)
    }
}

/// The header of a row with the given timestamp and expiry.
pub open spec fn header_bytes(row_timestamp: u64, row_expiry: Option<u32>) -> Seq<u8> {
    match row_expiry {
        Some(e) => seq![1u8] + fixed_u64_bytes(row_timestamp) + fixed_u32_bytes(e),
        None => seq![0u8] + fixed_u64_bytes(row_timestamp),
    }
}

/// The bytes of the first `n` columns, one after the other, in a row with the
/// given timestamp and expiry.
pub open spec fn columns_bytes(
    columns: Seq<ColumnView>,
    n: int,
    row_timestamp: u64,
    row_expiry: Option<u32>,
) -> Seq<u8>
    decreases n,
{
    if n <= 0 {
        Seq::empty()
    } else {
        columns_bytes(columns, n - 1, row_timestamp, row_expiry) + column_bytes(
            columns[n - 1],
            row_timestamp,
            row_expiry,
        )
    }
}

/// The buffer of the row that holds the given columns: the header with the
/// most frequent timestamp and expiry, then the columns in their order.
pub open spec fn row_bytes(columns: Seq<ColumnView>) -> Seq<u8> {
    header_bytes(row_timestamp_of(columns), row_expiry_of(columns)) + columns_bytes(
        columns,
        columns.len() as int,
        row_timestamp_of(columns),
        row_expiry_of(columns),
    )
}

/// A row that owns its buffer.
pub struct DetachedRowData {
    pub schema: Arc<TableSchema>,
    pub buf: Vec<u8>,
}

impl DetachedRowData {
    /// The timestamp that is most frequent among the columns; of several that
    /// are equally frequent, the one that stands first.
    pub fn most_frequent_timestamp(columns: &Vec<ColumnData>) -> (r: MergeTimestamp)
        requires
            columns@.len() > 0,
        ensures
            r.ticks == row_timestamp_of(column_views(columns@)),
    {
        let ghost views = column_views(columns@);
        let mut timestamps: Vec<u64> = Vec::new();
        let mut i: usize = 0;
        while i < columns.len()
            invariant
                i <= columns.len(),
                views == column_views(columns@),
                timestamps@ == timestamps_of(views).take(i as int),
            decreases columns.len() - i,
        {
            timestamps.push(columns[i].timestamp.ticks);
            proof {
                assert(timestamps@ =~= timestamps_of(views).take(i + 1));
            }
            i = i + 1;
        }
        assert(timestamps@ =~= timestamps_of(views));
        MergeTimestamp::from_ticks(most_frequent_value(&timestamps))
    }

    /// The expiry that is most frequent among those of the columns that have
    /// one; of several that are equally frequent, the one that stands first.
    pub fn most_frequent_expiry(columns: &Vec<ColumnData>) -> (r: Option<TtlTimestamp>)
        ensures
            expiry_seconds(r) == row_expiry_of(column_views(columns@)),
    {
        let ghost views = column_views(columns@);
        let mut expiries: Vec<u64> = Vec::new();
        let mut i: usize = 0;
        while i < columns.len()
            invariant
                i <= columns.len(),
                views == column_views(columns@),
                expiries@ == expiries_of(views, i as int),
            decreases columns.len() - i,
        {
            match columns[i].expiry {
                Some(t) => {
                    expiries.push(t.epoch_seconds as u64);
                },
                None => {},
            }
            i = i + 1;
        }
        if expiries.len() == 0 {
            None
        } else {
            proof {
                lemma_expiries_are_seconds(views, views.len() as int);
                lemma_most_frequent_index(expiries@, expiries@.len() as int);
            }
            Some(TtlTimestamp::new(most_frequent_value(&expiries) as u32))
        }
    }

    /// Appends the bytes of `col` to the buffer of a row with the given
    /// timestamp and expiry.
    pub fn encode_column(
        buf: &mut Vec<u8>,
        col: &ColumnData,
        row_timestamp: MergeTimestamp,
        row_expiry: Option<TtlTimestamp>,
    )
        ensures
            final(buf)@ == old(buf)@ + column_bytes(
                col@,
                row_timestamp.ticks,
                expiry_seconds(row_expiry),
            ),
    {
        let ghost row_exp: Option<u32> = expiry_seconds(row_expiry);
        let has_timestamp = col.timestamp.ticks != row_timestamp.ticks;
        let same_expiry = match (col.expiry, row_expiry) {
            (Some(a), Some(b)) => a.epoch_seconds == b.epoch_seconds,
            _ => false,
        };
        let has_col_expiry = col.expiry.is_some() && !same_expiry;
        let has_row_expiry = col.expiry.is_some() && same_expiry;
        let flags = ColumnFlags::new(col.value.is_none(), has_timestamp, has_col_expiry, has_row_expiry);
        let ghost start = buf@;
        buf.push(col.col_id.0);
        buf.push(flags.0);
        let ghost head = seq![col.col_id.0, flags.0];
        assert(buf@ =~= start + head);
        if has_timestamp {
            buf.encode_fixed_u64(col.timestamp.ticks);
        }
        let ghost ts_bytes = if has_timestamp {
            fixed_u64_bytes(col.timestamp.ticks)
        } else {
            Seq::empty()
        };
        assert(buf@ =~= start + (head + ts_bytes));
        match col.expiry {
            Some(t) => {
                if has_col_expiry {
                    buf.encode_fixed_u32(t.epoch_seconds);
                }
            },
            None => {},
        }
        let ghost exp_bytes = if has_col_expiry {
            fixed_u32_bytes(col@.expiry.unwrap())
        } else {
            Seq::empty()
        };
        assert(buf@ =~= start + (head + ts_bytes + exp_bytes));
        match col.value {
            Some(v) => write_value(buf, v),
            None => {},
        }
        let ghost val_bytes = match col@.value {
            Some(v) => v.bytes(),
            None => Seq::empty(),
        };
        assert(buf@ =~= start + (head + ts_bytes + exp_bytes + val_bytes));
        assert(column_bytes(col@, row_timestamp.ticks, row_exp) == head + ts_bytes + exp_bytes
            + val_bytes);
    }


    /// The row that holds the given columns. The row stores them in the order
    /// of the schema: first the columns that rows are ordered by, as the
    /// schema lists them, then the others in the order of their ids; columns
    /// with one id stay in the order given. Its header carries the timestamp
    /// and the expiry that are most frequent among the columns, and each
    /// column carries only what differs from them. Where each column fits the
    /// schema, the buffer holds a row of the schema with these columns; where
    /// in addition no two columns have one id and the key columns are among
    /// them with a value, it is a keyed row.
    pub fn assemble(schema: &Arc<TableSchema>, columns: &Vec<ColumnData>) -> (r: DetachedRowData)
        requires
            columns@.len() > 0,
        ensures
            r.schema == *schema,
            r.buf@ == row_bytes(
                stored_order(&**schema, column_views(columns@), columns@.len() as int),
            ),
            all_typed(&**schema, column_views(columns@)) ==> row_columns(&**schema, r.buf@)
                == Some(stored_order(&**schema, column_views(columns@), columns@.len() as int)),
            rank_sorted(
                &**schema,
                stored_order(&**schema, column_views(columns@), columns@.len() as int),
            ),
            stored_order(
                &**schema,
                column_views(columns@),
                columns@.len() as int,
            ).to_multiset() == column_views(columns@).to_multiset(),
            distinct_ids(column_views(columns@)) ==> in_order(
                &**schema,
                stored_order(&**schema, column_views(columns@), columns@.len() as int),
            ),
            all_typed(&**schema, column_views(columns@)) && distinct_ids(column_views(columns@))
                && holds_key(&**schema, column_views(columns@)) && key_ids_distinct(&**schema)
                ==> row_keyed(&**schema, r.buf@),
    {
        let ghost views = column_views(columns@);
        let ghost table = &**schema;
        let key_len = schema.leading_key_columns();
        let mut sorted: Vec<ColumnData> = Vec::new();
        let mut ranks: Vec<u128> = Vec::new();
        let mut i: usize = 0;
        while i < columns.len()
            invariant
                i <= columns.len(),
                views == column_views(columns@),
                table == &**schema,
                key_len == table.key_len(),
                column_views(sorted@) == stored_order(table, views, i as int),
                sorted@.len() == i,
                ranks@.len() == i,
                forall|t: int|
                    0 <= t < i ==> #[trigger] ranks@[t] == table.rank(sorted@[t].col_id.0),
            decreases columns.len() - i,
        {
            let c = columns[i];
            let rank = schema.rank_among(key_len, c.col_id);
            let ghost before = column_views(sorted@);
            let mut at: usize = sorted.len();
            while at > 0 && ranks[at - 1] > rank
                invariant
                    at <= sorted@.len(),
                    sorted@.len() == ranks@.len(),
                    before == column_views(sorted@),
                    rank == table.rank(c@.col_id),
                    forall|t: int|
                        0 <= t < ranks@.len() ==> #[trigger] ranks@[t] == table.rank(
                            sorted@[t].col_id.0,
                        ),
                    place(table, before, c@, before.len() as int) == place(
                        table,
                        before,
                        c@,
                        at as int,
                    ),
                decreases at,
            {
                at = at - 1;
            }
            sorted.insert(at, c);
            ranks.insert(at, rank);
            proof {
                assert(column_views(sorted@) =~= before.insert(at as int, c@));
            }
            i = i + 1;
        }
        proof {
            let stored = stored_order(table, views, views.len() as int);
            lemma_stored_order(table, views, views.len() as int);
            assert(views.take(views.len() as int) =~= views);
            if distinct_ids(views) {
                lemma_stored_order_strict(table, views, views.len() as int);
            }
            if all_typed(table, views) {
                assert forall|t: int| 0 <= t < views.len() implies fits_schema(
                    table,
                    #[trigger] views[t],
                ) by {
                    match columns@[t].value {
                        Some(v) => {
                            lemma_view_encodable(v);
                        },
                        None => {},
                    }
                }
                lemma_stored_order_fits(table, views);
                lemma_assemble_round_trip(table, stored);
                if distinct_ids(views) && holds_key(table, views) && key_ids_distinct(table) {
                    lemma_ordered_columns_keyed(table, views, stored);
                    assert(row_keyed(table, row_bytes(stored))) by {
                        reveal(row_keyed);
                    }
                }
            }
        }
        DetachedRowData::write_row(schema, &sorted)
    }

    /// The row that holds the given columns in the order given.
    fn write_row(schema: &Arc<TableSchema>, columns: &Vec<ColumnData>) -> (r: DetachedRowData)
        requires
            columns@.len() > 0,
        ensures
            r.schema == *schema,
            r.buf@ == row_bytes(column_views(columns@)),
    {
        let ghost views = column_views(columns@);
        let row_timestamp = DetachedRowData::most_frequent_timestamp(columns);
        let row_expiry = DetachedRowData::most_frequent_expiry(columns);
        let ghost ts = row_timestamp_of(views);
        let ghost exp = row_expiry_of(views);
        assert(row_timestamp.ticks == ts);
        assert(expiry_seconds(row_expiry) == exp);

        let row_flags = RowFlags::create(row_expiry.is_some());
        let mut buf: Vec<u8> = Vec::new();
        buf.push(row_flags.0);
        buf.encode_fixed_u64(row_timestamp.ticks);
        match row_expiry {
            Some(ttl) => buf.encode_fixed_u32(ttl.epoch_seconds),
            None => {},
        }
        assert(buf@ =~= header_bytes(ts, exp));
        let mut j: usize = 0;
        while j < columns.len()
            invariant
                j <= columns.len(),
                views == column_views(columns@),
                row_timestamp.ticks == ts,
                expiry_seconds(row_expiry) == exp,
                buf@ == header_bytes(ts, exp) + columns_bytes(views, j as int, ts, exp),
            decreases columns.len() - j,
        {
            let ghost before = buf@;
            DetachedRowData::encode_column(&mut buf, &columns[j], row_timestamp, row_expiry);
            proof {
                let added = column_bytes(views[j as int], ts, exp);
                assert(before + added =~= header_bytes(ts, exp) + (columns_bytes(
                    views,
                    j as int,
                    ts,
                    exp,
                ) + added));
            }
            j = j + 1;
        }
        DetachedRowData { schema: schema.clone(), buf }
    }

    /// The view of this row's buffer.
    pub fn row_data_view(&self) -> (r: RowData<'_>)
        ensures
            r.schema == self.schema,
            r.buf@ == self.buf@,
    {
        RowData::from_view(&self.schema, self.buf.as_slice())
    }
}

/// The expiries that are gathered from columns are 32-bit seconds.
pub proof fn lemma_expiries_are_seconds(columns: Seq<ColumnView>, n: int)
    requires
        0 <= n <= columns.len(),
    ensures
        forall|j: int|
            0 <= j < expiries_of(columns, n).len() ==> #[trigger] expiries_of(columns, n)[j]
                <= u32::MAX,
    decreases n,
{
    if n > 0 {
        lemma_expiries_are_seconds(columns, n - 1);
        let before = expiries_of(columns, n - 1);
        let all = expiries_of(columns, n);
        assert forall|j: int| 0 <= j < all.len() implies #[trigger] all[j] <= u32::MAX by {
            if j < before.len() {
                assert(all[j] == before[j]);
            }
        }
    }
}

/// The column belongs to the schema, and its value, if it has one, is of the
/// column's type and can be written.
pub open spec fn fits_schema(schema: &TableSchema, c: ColumnView) -> bool {
    &&& schema.type_of(c.col_id) is Some
    &&& c.value matches Some(v) ==> v.has_type(schema.type_of(c.col_id).unwrap())
        && v.encodable()
}

/// The column belongs to the schema, and its value, if it has one, is of the
/// column's type.
pub open spec fn typed(schema: &TableSchema, c: ColumnView) -> bool {
    &&& schema.type_of(c.col_id) is Some
    &&& c.value matches Some(v) ==> v.has_type(schema.type_of(c.col_id).unwrap())
}

/// Each of the columns is typed as the schema says.
pub open spec fn all_typed(schema: &TableSchema, columns: Seq<ColumnView>) -> bool {
    forall|i: int| 0 <= i < columns.len() ==> typed(schema, #[trigger] columns[i])
}

/// No two of the columns have one id.
pub open spec fn distinct_ids(columns: Seq<ColumnView>) -> bool {
    forall|i: int, j: int|
        0 <= i < j < columns.len() ==> (#[trigger] columns[i]).col_id != (
        #[trigger] columns[j]).col_id
}

/// The columns stand in the order in which a row stores them, and no two have
/// one id: each has a place in that order below the places of those behind
/// it.
pub open spec fn in_order(schema: &TableSchema, columns: Seq<ColumnView>) -> bool {
    forall|i: int, j: int|
        0 <= i < j < columns.len() ==> schema.rank((#[trigger] columns[i]).col_id) < schema.rank(
            (#[trigger] columns[j]).col_id,
        )
}

/// The columns stand in the order in which a row stores them; columns with
/// one id may follow each other.
pub open spec fn rank_sorted(schema: &TableSchema, columns: Seq<ColumnView>) -> bool {
    forall|i: int, j: int|
        0 <= i < j < columns.len() ==> schema.rank((#[trigger] columns[i]).col_id) <= schema.rank(
            (#[trigger] columns[j]).col_id,
        )
}

/// The place at which `c` is put into the first `n` of columns that are in
/// order: behind the last of them that does not come behind it.
pub open spec fn place(schema: &TableSchema, sorted: Seq<ColumnView>, c: ColumnView, n: int) -> int
    decreases n,
{
    if n <= 0 {
        0
    } else if schema.rank(sorted[n - 1].col_id) > schema.rank(c.col_id) {
        place(schema, sorted, c, n - 1)
    } else {
        n
    }
}

/// The first `n` of the columns in the order in which a row stores them: one
/// after the other is put at its place among those before it.
pub open spec fn stored_order(schema: &TableSchema, columns: Seq<ColumnView>, n: int) -> Seq<
    ColumnView,
>
    decreases n,
{
    if n <= 0 {
        Seq::empty()
    } else {
        let before = stored_order(schema, columns, n - 1);
        before.insert(place(schema, before, columns[n - 1], before.len() as int), columns[n - 1])
    }
}

/// A column is put between the columns that do not come behind it and those
/// that do.
pub proof fn lemma_place(schema: &TableSchema, sorted: Seq<ColumnView>, c: ColumnView, n: int)
    requires
        0 <= n <= sorted.len(),
    ensures
        0 <= place(schema, sorted, c, n) <= n,
        forall|i: int|
            place(schema, sorted, c, n) <= i < n ==> schema.rank((#[trigger] sorted[i]).col_id)
                > schema.rank(c.col_id),
        place(schema, sorted, c, n) > 0 ==> schema.rank(
            sorted[place(schema, sorted, c, n) - 1].col_id,
        ) <= schema.rank(c.col_id),
    decreases n,
{
    if n > 0 && schema.rank(sorted[n - 1].col_id) > schema.rank(c.col_id) {
        lemma_place(schema, sorted, c, n - 1);
    }
}

/// The stored order of columns holds the same columns, each as often as it
/// was given, and they stand in the order in which a row stores them.
pub proof fn lemma_stored_order(schema: &TableSchema, columns: Seq<ColumnView>, n: int)
    requires
        0 <= n <= columns.len(),
    ensures
        stored_order(schema, columns, n).len() == n,
        rank_sorted(schema, stored_order(schema, columns, n)),
        stored_order(schema, columns, n).to_multiset() == columns.take(n).to_multiset(),
    decreases n,
{
    if n > 0 {
        let before = stored_order(schema, columns, n - 1);
        let c = columns[n - 1];
        let at = place(schema, before, c, before.len() as int);
        let after = before.insert(at, c);
        lemma_stored_order(schema, columns, n - 1);
        lemma_place(schema, before, c, before.len() as int);
        assert forall|i: int, j: int| 0 <= i < j < after.len() implies schema.rank(
            (#[trigger] after[i]).col_id,
        ) <= schema.rank((#[trigger] after[j]).col_id) by {
            let from_i = if i < at {
                i
            } else {
                i - 1
            };
            let from_j = if j < at {
                j
            } else {
                j - 1
            };
            if i != at {
                assert(after[i] == before[from_i]);
            }
            if j != at {
                assert(after[j] == before[from_j]);
            }
            if i != at && j != at {
                assert(schema.rank(before[from_i].col_id) <= schema.rank(before[from_j].col_id));
            } else if j == at {
                if at > 0 && i < at - 1 {
                    assert(schema.rank(before[i].col_id) <= schema.rank(before[at - 1].col_id));
                }
            }
        }
        vstd::seq_lib::to_multiset_insert(before, at, c);
        vstd::seq_lib::to_multiset_build(columns.take(n - 1), c);
        assert(columns.take(n) =~= columns.take(n - 1).push(c));
    } else {
        assert(columns.take(n) =~= Seq::<ColumnView>::empty());
    }
}

/// Columns that stand in the order in which a row stores them are stored in
/// the order given.
pub proof fn lemma_stored_order_of_sorted(schema: &TableSchema, columns: Seq<ColumnView>, n: int)
    requires
        rank_sorted(schema, columns),
        0 <= n <= columns.len(),
    ensures
        stored_order(schema, columns, n) == columns.take(n),
    decreases n,
{
    if n > 0 {
        lemma_stored_order_of_sorted(schema, columns, n - 1);
        let before = columns.take(n - 1);
        if n > 1 {
            assert(before[n - 2] == columns[n - 2]);
            assert(schema.rank(columns[n - 2].col_id) <= schema.rank(columns[n - 1].col_id));
        }
        assert(place(schema, before, columns[n - 1], n - 1) == n - 1);
        assert(before.insert(n - 1, columns[n - 1]) =~= columns.take(n));
    } else {
        assert(columns.take(n) =~= Seq::<ColumnView>::empty());
    }
}

/// Columns that fit the schema fit it in their stored order too.
pub proof fn lemma_stored_order_fits(schema: &TableSchema, columns: Seq<ColumnView>)
    requires
        all_fit_schema(schema, columns),
    ensures
        all_fit_schema(schema, stored_order(schema, columns, columns.len() as int)),
{
    let stored = stored_order(schema, columns, columns.len() as int);
    lemma_stored_order(schema, columns, columns.len() as int);
    assert(columns.take(columns.len() as int) =~= columns);
    assert forall|i: int| 0 <= i < stored.len() implies fits_schema(schema, #[trigger] stored[i]) by {
        let c = stored[i];
        vstd::seq_lib::to_multiset_contains(stored, c);
        vstd::seq_lib::to_multiset_contains(columns, c);
        assert(stored.contains(c));
        assert(columns.contains(c));
        let j = choose|j: int| 0 <= j < columns.len() && columns[j] == c;
        assert(fits_schema(schema, columns[j]));
    }
}

/// Columns of which no two have one id stand in their stored order each
/// before those behind it.
pub proof fn lemma_stored_order_strict(schema: &TableSchema, columns: Seq<ColumnView>, n: int)
    requires
        0 <= n <= columns.len(),
        distinct_ids(columns),
    ensures
        in_order(schema, stored_order(schema, columns, n)),
    decreases n,
{
    if n > 0 {
        let before = stored_order(schema, columns, n - 1);
        let c = columns[n - 1];
        let at = place(schema, before, c, before.len() as int);
        let after = before.insert(at, c);
        lemma_stored_order_strict(schema, columns, n - 1);
        lemma_stored_order(schema, columns, n - 1);
        lemma_place(schema, before, c, before.len() as int);
        assert forall|t: int| 0 <= t < before.len() implies schema.rank(
            (#[trigger] before[t]).col_id,
        ) != schema.rank(c.col_id) by {
            let e = before[t];
            vstd::seq_lib::to_multiset_contains(before, e);
            let taken = columns.take(n - 1);
            vstd::seq_lib::to_multiset_contains(taken, e);
            assert(before.contains(e));
            assert(taken.contains(e));
            let j = choose|j: int| 0 <= j < taken.len() && taken[j] == e;
            assert(columns[j] == e);
            assert(columns[j].col_id != columns[n - 1].col_id);
            if schema.rank(e.col_id) == schema.rank(c.col_id) {
                crate::schema::lemma_rank_injective(schema, e.col_id, c.col_id);
            }
        }
        assert forall|i: int, j: int| 0 <= i < j < after.len() implies schema.rank(
            (#[trigger] after[i]).col_id,
        ) < schema.rank((#[trigger] after[j]).col_id) by {
            let from_i = if i < at {
                i
            } else {
                i - 1
            };
            let from_j = if j < at {
                j
            } else {
                j - 1
            };
            if i != at {
                assert(after[i] == before[from_i]);
            }
            if j != at {
                assert(after[j] == before[from_j]);
            }
            if i != at && j != at {
                assert(schema.rank(before[from_i].col_id) < schema.rank(before[from_j].col_id));
            } else if j == at {
                if at > 0 && i < at - 1 {
                    assert(schema.rank(before[i].col_id) < schema.rank(before[at - 1].col_id));
                }
                assert(schema.rank(before[i].col_id) != schema.rank(c.col_id));
            }
        }
    }
}

/// Each of the columns fits the schema.
pub open spec fn all_fit_schema(schema: &TableSchema, columns: Seq<ColumnView>) -> bool {
    forall|i: int| 0 <= i < columns.len() ==> fits_schema(schema, #[trigger] columns[i])
}

/// The bytes of the first `j` columns are the start of the bytes of the first
/// `n`.
pub proof fn lemma_columns_bytes_prefix(
    columns: Seq<ColumnView>,
    j: int,
    n: int,
    row_timestamp: u64,
    row_expiry: Option<u32>,
)
    requires
        0 <= j <= n <= columns.len(),
    ensures
        columns_bytes(columns, j, row_timestamp, row_expiry).len() <= columns_bytes(
            columns,
            n,
            row_timestamp,
            row_expiry,
        ).len(),
        columns_bytes(columns, n, row_timestamp, row_expiry).subrange(
            0,
            columns_bytes(columns, j, row_timestamp, row_expiry).len() as int,
        ) == columns_bytes(columns, j, row_timestamp, row_expiry),
    decreases n - j,
{
    let short = columns_bytes(columns, j, row_timestamp, row_expiry);
    let long = columns_bytes(columns, n, row_timestamp, row_expiry);
    if j < n {
        lemma_columns_bytes_prefix(columns, j, n - 1, row_timestamp, row_expiry);
        let middle = columns_bytes(columns, n - 1, row_timestamp, row_expiry);
        assert(long.subrange(0, short.len() as int) =~= middle.subrange(0, short.len() as int));
    } else {
        assert(long.subrange(0, short.len() as int) =~= short);
    }
}

/// In bytes that end with the bytes of some columns, the bytes of the `k`-th
/// column stand behind those of the columns before it.
proof fn lemma_column_bytes_at(
    s: Seq<u8>,
    columns: Seq<ColumnView>,
    k: int,
    start: int,
    row_timestamp: u64,
    row_expiry: Option<u32>,
)
    requires
        0 <= k < columns.len(),
        0 <= start <= s.len(),
        s.subrange(start, s.len() as int) == columns_bytes(
            columns,
            columns.len() as int,
            row_timestamp,
            row_expiry,
        ),
    ensures
        ({
            let offs = start + columns_bytes(columns, k, row_timestamp, row_expiry).len();
            let enc = column_bytes(columns[k], row_timestamp, row_expiry);
            &&& offs + enc.len() == start + columns_bytes(
                columns,
                k + 1,
                row_timestamp,
                row_expiry,
            ).len()
            &&& offs + enc.len() <= s.len()
            &&& s.subrange(offs, offs + enc.len()) == enc
        }),
{
    let body = columns_bytes(columns, columns.len() as int, row_timestamp, row_expiry);
    let read = columns_bytes(columns, k, row_timestamp, row_expiry);
    let enc = column_bytes(columns[k], row_timestamp, row_expiry);
    let longer = columns_bytes(columns, k + 1, row_timestamp, row_expiry);
    let offs = start + read.len();
    assert(longer == read + enc);
    lemma_columns_bytes_prefix(columns, k + 1, columns.len() as int, row_timestamp, row_expiry);
    assert(body.len() == s.len() - start);
    assert(s.subrange(offs, offs + enc.len()) =~= enc) by {
        assert forall|t: int| 0 <= t < enc.len() implies s[offs + t] == enc[t] by {
            assert(s.subrange(start, s.len() as int)[read.len() + t] == s[offs + t]);
            assert(body.subrange(0, longer.len() as int)[read.len() + t] == body[read.len() + t]);
            assert(longer[read.len() + t] == enc[t]);
        }
    }
}

/// Reading the bytes of columns that fit the schema, from behind the first
/// `k` of them, gives the others back.
pub proof fn lemma_columns_round_trip(
    schema: &TableSchema,
    s: Seq<u8>,
    columns: Seq<ColumnView>,
    k: int,
    start: int,
    row_timestamp: u64,
    row_expiry: Option<u32>,
)
    requires
        all_fit_schema(schema, columns),
        0 <= k <= columns.len(),
        0 <= start <= s.len(),
        s.subrange(start, s.len() as int) == columns_bytes(
            columns,
            columns.len() as int,
            row_timestamp,
            row_expiry,
        ),
    ensures
        columns_from(
            schema,
            s,
            start + columns_bytes(columns, k, row_timestamp, row_expiry).len(),
            row_timestamp,
            row_expiry,
        ) == Some(columns.skip(k)),
    decreases columns.len() - k,
{
    let offs = start + columns_bytes(columns, k, row_timestamp, row_expiry).len();
    if k == columns.len() {
        assert(offs == s.len());
        assert(columns.skip(k) =~= Seq::empty());
    } else {
        let c = columns[k];
        lemma_column_bytes_at(s, columns, k, start, row_timestamp, row_expiry);
        assert(fits_schema(schema, c));
        lemma_column_round_trip(schema, s, offs, c, row_timestamp, row_expiry);
        lemma_columns_round_trip(schema, s, columns, k + 1, start, row_timestamp, row_expiry);
        assert(seq![c] + columns.skip(k + 1) =~= columns.skip(k));
    }
}

/// In a sequence made of four parts, each part stands where the lengths of
/// those before it say.
proof fn lemma_parts_of_four(a: Seq<u8>, b: Seq<u8>, c: Seq<u8>, d: Seq<u8>)
    ensures
        ({
            let s = a + b + c + d;
            let at_b = a.len() as int;
            let at_c = at_b + b.len();
            let at_d = at_c + c.len();
            &&& s.len() == at_d + d.len()
            &&& s.subrange(at_b, at_c) == b
            &&& s.subrange(at_c, at_d) == c
            &&& s.subrange(at_d, at_d + d.len()) == d
            &&& a.len() > 0 ==> s[0] == a[0]
        }),
{
    let s = a + b + c + d;
    let at_b = a.len() as int;
    let at_c = at_b + b.len();
    let at_d = at_c + c.len();
    assert(s.subrange(at_b, at_c) =~= b);
    assert(s.subrange(at_c, at_d) =~= c);
    assert(s.subrange(at_d, at_d + d.len()) =~= d);
}

/// The header that is read from a row's bytes is the header that they start
/// with.
pub proof fn lemma_header_round_trip(row_timestamp: u64, row_expiry: Option<u32>, body: Seq<u8>)
    ensures
        header_fits(header_bytes(row_timestamp, row_expiry) + body),
        header_len(header_bytes(row_timestamp, row_expiry) + body) == header_bytes(
            row_timestamp,
            row_expiry,
        ).len(),
        header_timestamp(header_bytes(row_timestamp, row_expiry) + body) == row_timestamp,
        header_expiry(header_bytes(row_timestamp, row_expiry) + body) == row_expiry,
        (header_bytes(row_timestamp, row_expiry) + body).subrange(
            header_bytes(row_timestamp, row_expiry).len() as int,
            (header_bytes(row_timestamp, row_expiry) + body).len() as int,
        ) == body,
{
    let ts_bytes = fixed_u64_bytes(row_timestamp);
    assert(ts_bytes.len() == 8);
    match row_expiry {
        Some(e) => {
            let exp_bytes = fixed_u32_bytes(e);
            let s = seq![1u8] + ts_bytes + exp_bytes + body;
            assert(s =~= header_bytes(row_timestamp, row_expiry) + body);
            lemma_parts_of_four(seq![1u8], ts_bytes, exp_bytes, body);
            lemma_fixed_u64_round_trip(s, 1, row_timestamp);
            lemma_fixed_u32_round_trip(s, 9, e);
        },
        None => {
            let s = seq![0u8] + ts_bytes + Seq::<u8>::empty() + body;
            assert(s =~= header_bytes(row_timestamp, row_expiry) + body);
            lemma_parts_of_four(seq![0u8], ts_bytes, Seq::<u8>::empty(), body);
            lemma_fixed_u64_round_trip(s, 1, row_timestamp);
        },
    }
}

/// What is read from an assembled row is what it was assembled from: the
/// columns of the buffer of a row are the columns that the buffer was made
/// of, in their order, as long as each of them fits the schema.
pub proof fn lemma_assemble_round_trip(schema: &TableSchema, columns: Seq<ColumnView>)
    requires
        all_fit_schema(schema, columns),
    ensures
        row_columns(schema, row_bytes(columns)) == Some(columns),
{
    let ts = row_timestamp_of(columns);
    let exp = row_expiry_of(columns);
    let head = header_bytes(ts, exp);
    let body = columns_bytes(columns, columns.len() as int, ts, exp);
    let s = row_bytes(columns);
    lemma_header_round_trip(ts, exp, body);
    lemma_columns_round_trip(schema, s, columns, 0, head.len() as int, ts, exp);
    assert(columns.skip(0) =~= columns);
}

} // verus!
