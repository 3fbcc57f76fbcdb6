//! Sorted tables: rows in the order of their keys, framed one after the other
//! in a data file, with an index file that holds the offset of each row.

use vstd::prelude::*;
use std::sync::Arc;
use memmap::Mmap;
use vstd::utf8::encode_utf8;
use vstd::utf8::encode_utf8_valid_utf8;
use vstd::utf8::valid_utf8_concat;
use crate::primitives::text_of_bytes;
use crate::error::HtError;
use crate::error::HtResult;
use crate::memtable::row_buffers;
use crate::pk::all_keyed;
use crate::pk::lemma_rows_order_congruent;
use crate::pk::lemma_rows_order_reverse;
use crate::pk::lemma_rows_order_transitive;
use crate::pk::row_keyed;
use crate::pk::rows_order;
use crate::pk::rows_sorted;
use crate::pk::PkOrder;
use crate::primitives::checked_span;
use crate::primitives::fixed_u64_bytes;
use crate::primitives::fixed_u64_value;
use crate::primitives::lemma_fixed_u64_round_trip;
use crate::primitives::lemma_varint_len;
use crate::primitives::lemma_varint_round_trip;
use crate::primitives::varint_bytes;
use crate::primitives::prefixed_span;
use crate::primitives::DecodePrimitives;
use crate::primitives::EncodePrimitives;
use crate::row::framed;
use crate::row::DetachedRowData;
use crate::row::RowData;
use crate::schema::TableSchema;
use crate::primitives::lemma_varint_value_low;

verus! {

/// The data file of the first `n` rows: each row framed, one after the other.
pub open spec fn data_bytes(rows: Seq<Seq<u8>>, n: int) -> Seq<u8>
    decreases n,
{
    if n <= 0 {
        Seq::empty()
    } else {
        data_bytes(rows, n - 1) + framed(rows[n - 1])
    }
}

/// The index file of the first `n` rows: for each row the offset at which
/// its frame starts in the data file, as eight little-endian bytes.
pub open spec fn index_bytes(rows: Seq<Seq<u8>>, n: int) -> Seq<u8>
    decreases n,
{
    if n <= 0 {
        Seq::empty()
    } else {
        index_bytes(rows, n - 1) + fixed_u64_bytes(data_bytes(rows, n - 1).len() as u64)
    }
}

/// The number of entries of an index file.
pub open spec fn entry_count(index: Seq<u8>) -> int {
    index.len() as int / 8
}

/// The offset that the `i`-th entry of an index file holds.
pub open spec fn entry_offset(index: Seq<u8>, i: int) -> nat {
    fixed_u64_value(index, 8 * i)
}

/// The row whose frame starts at `offs` in a data file, if one does.
pub open spec fn row_at(data: Seq<u8>, offs: int) -> Option<Seq<u8>> {
    match prefixed_span(data, offs) {
        Some((start, end)) => Some(data.subrange(start, end)),
        None => None,
    }
}

/// The `i`-th entry of the table points at a row of the schema that starts
/// with its key.
pub open spec fn entry_ok(schema: &TableSchema, index: Seq<u8>, data: Seq<u8>, i: int) -> bool {
    match row_at(data, entry_offset(index, i) as int) {
        Some(row) => row_keyed(schema, row),
        None => false,
    }
}

/// The rows that the entries of the table point at.
pub open spec fn table_rows(index: Seq<u8>, data: Seq<u8>) -> Seq<Seq<u8>> {
    Seq::new(entry_count(index) as nat, |i: int| row_at(data, entry_offset(index, i) as int).unwrap())
}

/// Each entry of the table points at a keyed row of the schema, and the rows
/// stand in the strict order of their keys.
pub open spec fn table_ok(schema: &TableSchema, index: Seq<u8>, data: Seq<u8>) -> bool {
    &&& forall|i: int| 0 <= i < entry_count(index) ==> #[trigger] entry_ok(schema, index, data, i)
    &&& rows_sorted(schema, table_rows(index, data))
}

/// What a lookup comes to.
pub enum Probe {
    /// The entry with this number points at the row that was looked for.
    Found(int),
    /// No row has the key that was looked for.
    Absent,
    /// An entry that was probed does not point at a keyed row of the schema.
    Damaged,
}

/// What the binary search for the key of `target` among the entries from
/// `lo` up to `hi` comes to: the entry in the middle is probed; it is the
/// row, or the search goes on below it or above it, or it is damaged.
pub open spec fn probe(
    schema: &TableSchema,
    index: Seq<u8>,
    data: Seq<u8>,
    target: Seq<u8>,
    lo: int,
    hi: int,
) -> Probe
    decreases hi - lo,
{
    if lo >= hi {
        Probe::Absent
    } else {
        let mid = lo + (hi - lo) / 2;
        if !entry_ok(schema, index, data, mid) {
            Probe::Damaged
        } else {
            match rows_order(schema, table_rows(index, data)[mid], target) {
                PkOrder::Equal => Probe::Found(mid),
                PkOrder::Less => probe(schema, index, data, target, mid + 1, hi),
                PkOrder::Greater => probe(schema, index, data, target, lo, mid),
            }
        }
    }
}

/// Writes the rows to the bytes of an index file and of a data file: each row
/// is framed and appended to the data, and the offset of its frame is
/// appended to the index.
pub fn serialize(rows: &Vec<DetachedRowData>) -> (r: (Vec<u8>, Vec<u8>))
    ensures
        r.0@ == index_bytes(row_buffers(rows@), rows@.len() as int),
        r.1@ == data_bytes(row_buffers(rows@), rows@.len() as int),
{
    let ghost buffers = row_buffers(rows@);
    let mut index: Vec<u8> = Vec::new();
    let mut data: Vec<u8> = Vec::new();
    let mut i: usize = 0;
    while i < rows.len()
        invariant
            i <= rows.len(),
            buffers == row_buffers(rows@),
            index@ == index_bytes(buffers, i as int),
            data@ == data_bytes(buffers, i as int),
        decreases rows.len() - i,
    {
        let pos: usize = data.len();
        index.encode_fixed_u64(pos as u64);
        rows[i].row_data_view().write_to(&mut data);
        i = i + 1;
    }
    (index, data)
}

/// Reads the row that the `i`-th entry of the index points at, if there is
/// such an entry and it points at a keyed row of the schema.
pub fn read_entry<'a>(schema: &Arc<TableSchema>, index: &[u8], data: &'a [u8], i: usize) -> (r:
    Option<RowData<'a>>)
    ensures
        r is Some <==> i < entry_count(index@) && entry_ok(&**schema, index@, data@, i as int),
        r matches Some(row) ==> row.schema == *schema && row_at(
            data@,
            entry_offset(index@, i as int) as int,
        ) == Some(row.buf@) && row.keyed(),
{
    if i >= index.len() / 8 {
        return None;
    }
    let mut at: usize = 8 * i;
    let offset: u64 = index.decode_fixed_u64(&mut at);
    if offset > usize::MAX as u64 {
        proof {
            let n = data.len();
            if prefixed_span(data@, offset as int) is Some {
                lemma_varint_value_low(data@, offset as int);
            }
        }
        return None;
    }
    match checked_span(data, offset as usize) {
        Some((start, end)) => {
            let row = RowData::from_view(schema, vstd::slice::slice_subrange(data, start, end));
            if row.is_keyed() {
                Some(row)
            } else {
                None
            }
        },
        None => None,
    }
}

/// Looks for the row that has the key of `pks` among the rows of a table,
/// by binary search over the index. What comes back is what `probe` says: the
/// row of the entry that was found, nothing, or an error where a probed entry
/// does not point at a keyed row of the schema. Where the table is in order,
/// the row is found if and only if it is there.
pub fn find_in<'a>(schema: &Arc<TableSchema>, index: &[u8], data: &'a [u8], pks: &RowData) -> (r:
    HtResult<Option<RowData<'a>>>)
    requires
        pks.keyed(),
        pks.schema == *schema,
    ensures
        match probe(&**schema, index@, data@, pks.buf@, 0, entry_count(index@)) {
            Probe::Found(i) => r matches Ok(Some(row)) && row_at(
                data@,
                entry_offset(index@, i) as int,
            ) == Some(row.buf@),
            Probe::Absent => r matches Ok(None),
            Probe::Damaged => r is Err,
        },
        r matches Ok(Some(row)) ==> row.schema == *schema && row.keyed() && rows_order(
            &**schema,
            row.buf@,
            pks.buf@,
        ) == PkOrder::Equal && exists|i: int|
            0 <= i < entry_count(index@) && #[trigger] row_at(
                data@,
                entry_offset(index@, i) as int,
            ) == Some(row.buf@),
        r matches Err(e) ==> e is FileIntegrity && exists|i: int|
            0 <= i < entry_count(index@) && !#[trigger] entry_ok(&**schema, index@, data@, i),
        table_ok(&**schema, index@, data@) ==> r is Ok,
        table_ok(&**schema, index@, data@) ==> (r matches Ok(None) <==> forall|i: int|
            0 <= i < entry_count(index@) ==> #[trigger] rows_order(
                &**schema,
                table_rows(index@, data@)[i],
                pks.buf@,
            ) != PkOrder::Equal),
{
    let ghost table = &**schema;
    let ghost rows = table_rows(index@, data@);
    let ghost target = pks.buf@;
    let ghost ok = table_ok(table, index@, data@);
    let count: usize = index.len() / 8;
    let mut lo: usize = 0;
    let mut hi: usize = count;
    while lo < hi
        invariant
            table == &**schema,
            rows == table_rows(index@, data@),
            target == pks.buf@,
            ok == table_ok(table, index@, data@),
            count == entry_count(index@),
            pks.keyed(),
            pks.schema == *schema,
            lo <= hi <= count,
            probe(table, index@, data@, target, 0, count as int) == probe(
                table,
                index@,
                data@,
                target,
                lo as int,
                hi as int,
            ),
            ok ==> forall|i: int|
                0 <= i < lo ==> #[trigger] rows_order(table, rows[i], target) == PkOrder::Less,
            ok ==> forall|i: int|
                hi <= i < count ==> #[trigger] rows_order(table, rows[i], target)
                    == PkOrder::Greater,
        decreases hi - lo,
    {
        let mid: usize = lo + (hi - lo) / 2;
        let row = match read_entry(schema, index, data, mid) {
            Some(row) => row,
            None => {
                return Err(HtError::file_integrity("the table holds a malformed row"));
            },
        };
        let here = row.pk_order(pks);
        assert(row.buf@ == rows[mid as int]);
        assert(here == rows_order(table, rows[mid as int], target)) by {
            reveal(rows_order);
        }
        match here {
            PkOrder::Equal => {
                return Ok(Some(row));
            },
            PkOrder::Less => {
                proof {
                    if ok {
                        assert forall|i: int| 0 <= i < mid + 1 implies #[trigger] rows_order(
                            table,
                            rows[i],
                            target,
                        ) == PkOrder::Less by {
                            if i < mid {
                                assert(rows_order(table, rows[i], rows[mid as int])
                                    == PkOrder::Less);
                                lemma_rows_order_transitive(
                                    table,
                                    rows[i],
                                    rows[mid as int],
                                    target,
                                );
                            }
                        }
                    }
                }
                lo = mid + 1;
            },
            PkOrder::Greater => {
                proof {
                    if ok {
                        assert forall|i: int| mid <= i < count implies #[trigger] rows_order(
                            table,
                            rows[i],
                            target,
                        ) == PkOrder::Greater by {
                            if i > mid {
                                assert(rows_order(table, rows[mid as int], rows[i])
                                    == PkOrder::Less);
                                lemma_rows_order_reverse(table, rows[mid as int], target);
                                lemma_rows_order_transitive(
                                    table,
                                    target,
                                    rows[mid as int],
                                    rows[i],
                                );
                                lemma_rows_order_reverse(table, target, rows[i]);
                            }
                        }
                    }
                }
                hi = mid;
            },
        }
    }
    Ok(None)
}

/// `memmap::Mmap`, carried as a value that nothing is known of.
#[verifier::external_type_specification]
#[verifier::external_body]
pub struct ExMmap(memmap::Mmap);

/// Calls `Mmap::deref`: the bytes of the mapped memory. They are what the
/// mapped file holds at this moment, so nothing is known of them.
#[verifier::external_body]
fn mapped_bytes(map: &Mmap) -> (r: &[u8]) {
    std::ops::Deref::deref(map)
}

/// Calls `Uuid::new_v4` and then `to_string` on the result: the text of a
/// random UUID. Nothing is known of it.
#[verifier::external_body]
fn random_uuid_text() -> (r: String) {
    uuid::Uuid::new_v4().to_string()
}

/// A sorted table: the memory maps of its index file and of its data file.
pub struct SsTable {
    pub schema: Arc<TableSchema>,
    pub index_mmap: Mmap,
    pub data_mmap: Mmap,
    pub name_base: String,
}

impl SsTable {
    /// A name for the files of a new table of the schema: the table's name, a
    /// hyphen and the text of a random UUID.
    pub fn new_name_base(schema: &TableSchema) -> (r: String)
        ensures
            exists|id: Seq<char>|
                encode_utf8(r@) == encode_utf8(schema.name@) + encode_utf8("-"@) + #[trigger] encode_utf8(
                    id,
                ),
    {
        let id = random_uuid_text();
        let mut bytes: Vec<u8> = Vec::new();
        bytes.extend_from_slice(schema.name.as_str().as_bytes());
        bytes.extend_from_slice("-".as_bytes());
        bytes.extend_from_slice(id.as_str().as_bytes());
        proof {
            let name_bytes = encode_utf8(schema.name@);
            let hyphen_bytes = encode_utf8("-"@);
            let id_bytes = encode_utf8(id@);
            encode_utf8_valid_utf8(schema.name@);
            encode_utf8_valid_utf8("-"@);
            encode_utf8_valid_utf8(id@);
            valid_utf8_concat(name_bytes, hyphen_bytes);
            valid_utf8_concat(name_bytes + hyphen_bytes, id_bytes);
            assert(bytes@ =~= name_bytes + hyphen_bytes + id_bytes);
        }
        match text_of_bytes(bytes.as_slice()) {
            Some(text) => text.to_owned(),
            None => String::new(),
        }
    }

    /// The table of the schema whose index file and data file are mapped to
    /// the given memory.
    pub fn from_maps(schema: &Arc<TableSchema>, index_mmap: Mmap, data_mmap: Mmap, name_base: &str) -> (r:
        SsTable)
        ensures
            r.schema == *schema,
            r.index_mmap == index_mmap,
            r.data_mmap == data_mmap,
            r.name_base@ == name_base@,
    {
        SsTable { schema: schema.clone(), index_mmap, data_mmap, name_base: name_base.to_owned() }
    }

    /// Looks for the row that has the key of `pks`, by binary search over
    /// the mapped index. What comes back is what `find_in` gives for the bytes
    /// that the maps hold at this moment: a row that is found is a keyed row
    /// of the schema with the key of `pks`.
    pub fn find_by_full_pk(&self, pks: &RowData) -> (r: HtResult<Option<RowData<'_>>>)
        requires
            pks.keyed(),
            pks.schema == self.schema,
        ensures
            r matches Ok(Some(row)) ==> row.schema == self.schema && row.keyed() && rows_order(
                &*self.schema,
                row.buf@,
                pks.buf@,
            ) == PkOrder::Equal,
            r matches Err(e) ==> e is FileIntegrity,
    {
        find_in(&self.schema, mapped_bytes(&self.index_mmap), mapped_bytes(&self.data_mmap), pks)
    }
}

/// The index file of `n` rows has eight bytes for each of them, and the entry
/// of the `i`-th row holds the length of the data file of the rows before it.
pub proof fn lemma_index_entry(rows: Seq<Seq<u8>>, i: int, n: int)
    requires
        0 <= i < n <= rows.len(),
        data_bytes(rows, n).len() <= u64::MAX,
    ensures
        index_bytes(rows, n).len() == 8 * n,
        entry_offset(index_bytes(rows, n), i) == data_bytes(rows, i).len(),
        data_bytes(rows, i).len() <= data_bytes(rows, n).len(),
    decreases n,
{
    let index = index_bytes(rows, n);
    let before = index_bytes(rows, n - 1);
    let offset = data_bytes(rows, n - 1).len();
    let entry = fixed_u64_bytes(offset as u64);
    assert(entry.len() == 8);
    assert(index == before + entry);
    if n > 1 {
        lemma_index_entry(rows, if i < n - 1 {
            i
        } else {
            0
        }, n - 1);
    }
    assert(before.len() == 8 * (n - 1));
    if i < n - 1 {
        let at = 8 * i;
        assert(before[at] == index[at]);
        assert(before[at + 1] == index[at + 1]);
        assert(before[at + 2] == index[at + 2]);
        assert(before[at + 3] == index[at + 3]);
        assert(before[at + 4] == index[at + 4]);
        assert(before[at + 5] == index[at + 5]);
        assert(before[at + 6] == index[at + 6]);
        assert(before[at + 7] == index[at + 7]);
    } else {
        assert(index.subrange(8 * i, 8 * i + 8) =~= entry);
        lemma_fixed_u64_round_trip(index, 8 * i, offset as u64);
    }
}

/// The data file of `n` rows holds the frame of the `i`-th row behind the data
/// file of the rows before it.
pub proof fn lemma_data_frame(rows: Seq<Seq<u8>>, i: int, n: int)
    requires
        0 <= i < n <= rows.len(),
    ensures
        data_bytes(rows, i).len() + framed(rows[i]).len() <= data_bytes(rows, n).len(),
        data_bytes(rows, n).subrange(
            data_bytes(rows, i).len() as int,
            data_bytes(rows, i).len() as int + framed(rows[i]).len(),
        ) == framed(rows[i]),
    decreases n,
{
    let data = data_bytes(rows, n);
    let before = data_bytes(rows, n - 1);
    let start = data_bytes(rows, i).len() as int;
    let end = start + framed(rows[i]).len();
    assert(data == before + framed(rows[n - 1]));
    if i < n - 1 {
        lemma_data_frame(rows, i, n - 1);
        assert(data.subrange(start, end) =~= before.subrange(start, end));
    } else {
        assert(data.subrange(start, end) =~= framed(rows[i]));
    }
}

/// Where the frame of a row stands at `offs` in a data file, the row is read
/// from there.
pub proof fn lemma_row_at_frame(data: Seq<u8>, offs: int, row: Seq<u8>)
    requires
        0 <= offs,
        offs + framed(row).len() <= data.len(),
        data.subrange(offs, offs + framed(row).len()) == framed(row),
    ensures
        row_at(data, offs) == Some(row),
{
    let prefix = varint_bytes(row.len());
    let frame = framed(row);
    let part = data.subrange(offs, offs + frame.len());
    lemma_varint_len(row.len());
    assert(data.subrange(offs, offs + prefix.len()) =~= prefix) by {
        assert forall|t: int| 0 <= t < prefix.len() implies data[offs + t] == prefix[t] by {
            assert(part[t] == data[offs + t]);
            assert(frame[t] == prefix[t]);
        }
    }
    lemma_varint_round_trip(data, offs, row.len());
    let start = offs + prefix.len();
    assert(data.subrange(start, start + row.len()) =~= row) by {
        assert forall|t: int| 0 <= t < row.len() implies data[start + t] == row[t] by {
            assert(part[prefix.len() + t] == data[start + t]);
            assert(frame[prefix.len() + t] == row[t]);
        }
    }
}

/// A table that is written from keyed rows in the strict order of their keys
/// is in order, and its entries point at these rows: the table that is read
/// is the table that was written.
pub proof fn lemma_serialized_table(schema: &TableSchema, rows: Seq<Seq<u8>>)
    requires
        all_keyed(schema, rows),
        rows_sorted(schema, rows),
        data_bytes(rows, rows.len() as int).len() <= u64::MAX,
    ensures
        entry_count(index_bytes(rows, rows.len() as int)) == rows.len(),
        table_rows(index_bytes(rows, rows.len() as int), data_bytes(rows, rows.len() as int))
            == rows,
        table_ok(
            schema,
            index_bytes(rows, rows.len() as int),
            data_bytes(rows, rows.len() as int),
        ),
{
    let n = rows.len() as int;
    let index = index_bytes(rows, n);
    let data = data_bytes(rows, n);
    if n > 0 {
        lemma_index_entry(rows, 0, n);
    }
    assert(index.len() == 8 * n);
    assert forall|i: int| 0 <= i < n implies row_at(data, entry_offset(index, i) as int) == Some(
        rows[i],
    ) by {
        lemma_index_entry(rows, i, n);
        lemma_data_frame(rows, i, n);
        lemma_row_at_frame(data, data_bytes(rows, i).len() as int, rows[i]);
    }
    assert(table_rows(index, data) =~= rows);
    assert forall|i: int| 0 <= i < entry_count(index) implies #[trigger] entry_ok(
        schema,
        index,
        data,
        i,
    ) by {
        assert(row_at(data, entry_offset(index, i) as int) == Some(rows[i]));
        assert(row_keyed(schema, rows[i]));
    }
}

/// In rows that stand in the strict order of their keys, at most one has the
/// key of a given row.
pub proof fn lemma_equal_key_is_unique(
    schema: &TableSchema,
    rows: Seq<Seq<u8>>,
    i: int,
    j: int,
    probe: Seq<u8>,
)
    requires
        rows_sorted(schema, rows),
        0 <= i < rows.len(),
        0 <= j < rows.len(),
        rows_order(schema, rows[i], probe) == PkOrder::Equal,
        rows_order(schema, rows[j], probe) == PkOrder::Equal,
    ensures
        i == j,
{
    lemma_rows_order_congruent(schema, rows[i], probe, rows[j]);
    lemma_rows_order_reverse(schema, rows[j], probe);
    if i < j {
        assert(rows_order(schema, rows[i], rows[j]) == PkOrder::Less);
    } else if j < i {
        assert(rows_order(schema, rows[j], rows[i]) == PkOrder::Less);
        lemma_rows_order_reverse(schema, rows[j], rows[i]);
    }
}

} // verus!
