//! The columns of a row: their flags, their values and the bytes that a column
//! takes in a row's buffer.

use vstd::prelude::*;
use vstd::string::StringSliceAdditionalSpecFns;
use vstd::utf8::valid_utf8;
use crate::primitives::bool_bytes;
use crate::primitives::checked_utf8;
use crate::primitives::checked_varint;
use crate::primitives::fixed_u32_bytes;
use crate::primitives::fixed_u32_value;
use crate::primitives::fixed_u64_bytes;
use crate::primitives::fixed_u64_value;
use crate::primitives::lemma_fixed_u32_round_trip;
use crate::primitives::lemma_fixed_u64_round_trip;
use crate::primitives::lemma_varint_len;
use crate::primitives::lemma_varint_round_trip;
use crate::primitives::signed_code;
use crate::primitives::signed_of_code;
use crate::primitives::utf8_bytes;
use crate::primitives::utf8_fits;
use crate::primitives::prefixed_span;
use crate::primitives::varint_bytes;
use crate::primitives::varint_value;
use crate::primitives::DecodePrimitives;
use crate::primitives::EncodePrimitives;
use crate::schema::ColumnId;
use crate::schema::ColumnType;
use crate::schema::TableSchema;
use crate::schema::MAX_COLUMN_ID;
use crate::time::MergeTimestamp;
use crate::time::TtlTimestamp;
use crate::primitives::lemma_varint_value_low;

verus! {

/// The flags byte at the start of a row. Its lowest bit says that the row
/// carries an expiry which its columns can refer to.
#[derive(Copy, Clone, Debug, Eq, PartialEq, Structural)]
pub struct RowFlags(pub u8);

impl RowFlags {
    pub open spec fn spec_has_row_expiry(&self) -> bool {
        self.0 % 2 == 1
    }

    /// The flags of a row that has, or has not, an expiry in its header.
    pub fn create(has_row_expiry: bool) -> (r: RowFlags)
        ensures
            r.0 == (if has_row_expiry { 1u8 } else { 0u8 }),
            r.has_row_expiry() == has_row_expiry,
    {
        let mut flags: u8 = 0;
        if has_row_expiry {
            flags = flags | 1;
            assert(0u8 | 1u8 == 1u8) by (bit_vector);
        }
        RowFlags(flags)
    }

    /// The row carries an expiry in its header.
    #[verifier::when_used_as_spec(spec_has_row_expiry)]
    pub fn has_row_expiry(&self) -> (r: bool)
        ensures
            r == self.spec_has_row_expiry(),
    {
        let bits: u8 = self.0;
        assert((bits & 1 != 0) == (bits % 2 == 1)) by (bit_vector);
        self.0 & 1 != 0
    }
}

/// How a column says when it expires.
#[derive(Copy, Clone, Debug, Eq, PartialEq, Structural)]
pub enum ColumnExpiryKind {
    /// The column does not expire.
    NoExpiry,
    /// The column expires when the row's expiry says.
    RowExpiry,
    /// The column carries an expiry of its own.
    ColumnExpiry,
}

/// The flags byte of a column: bit 0 says that the value is NULL, bit 1 that
/// the column carries a timestamp of its own, bit 2 that it carries an expiry
/// of its own, bit 3 that it expires with the row.
#[derive(Debug, Eq, PartialEq, Copy, Clone, Structural)]
pub struct ColumnFlags(pub u8);

impl ColumnFlags {
    pub open spec fn spec_is_null(&self) -> bool {
        self.0 % 2 == 1
    }

    pub open spec fn spec_has_col_timestamp(&self) -> bool {
        self.0 / 2 % 2 == 1
    }

    pub open spec fn has_col_expiry(&self) -> bool {
        self.0 / 4 % 2 == 1
    }

    pub open spec fn has_row_expiry(&self) -> bool {
        self.0 / 8 % 2 == 1
    }

    pub open spec fn spec_expiry(&self) -> ColumnExpiryKind {
        if self.has_row_expiry() {
            ColumnExpiryKind::RowExpiry
        } else if self.has_col_expiry() {
            ColumnExpiryKind::ColumnExpiry
        } else {
            ColumnExpiryKind::NoExpiry
        }
    }

    /// The flags byte with the given bits.
    pub open spec fn bits(
        is_null: bool,
        has_timestamp: bool,
        has_col_expiry: bool,
        has_row_expiry: bool,
    ) -> u8 {
        ((if is_null { 1int } else { 0 }) + (if has_timestamp { 2int } else { 0 })
            + (if has_col_expiry { 4int } else { 0 }) + (if has_row_expiry { 8int } else { 0 }))
            as u8
    }

    /// The flags with the given bits.
    pub fn new(is_null: bool, has_timestamp: bool, has_col_expiry: bool, has_row_expiry: bool) -> (r:
        ColumnFlags)
        ensures
            r.0 == ColumnFlags::bits(is_null, has_timestamp, has_col_expiry, has_row_expiry),
            r.is_null() == is_null,
            r.has_col_timestamp() == has_timestamp,
            r.has_col_expiry() == has_col_expiry,
            r.has_row_expiry() == has_row_expiry,
    {
        let mut flags: u8 = 0;
        if is_null {
            flags = flags + 1;
        }
        if has_timestamp {
            flags = flags + 2;
        }
        if has_col_expiry {
            flags = flags + 4;
        }
        if has_row_expiry {
            flags = flags + 8;
        }
        ColumnFlags(flags)
    }

    /// The column's value is NULL.
    #[verifier::when_used_as_spec(spec_is_null)]
    pub fn is_null(&self) -> (r: bool)
        ensures
            r == self.spec_is_null(),
    {
        let bits: u8 = self.0;
        assert((bits & 1 != 0) == (bits % 2 == 1)) by (bit_vector);
        self.0 & 1 != 0
    }

    /// The column carries a timestamp of its own.
    #[verifier::when_used_as_spec(spec_has_col_timestamp)]
    pub fn has_col_timestamp(&self) -> (r: bool)
        ensures
            r == self.spec_has_col_timestamp(),
    {
        let bits: u8 = self.0;
        assert((bits & 2 != 0) == (bits / 2 % 2 == 1)) by (bit_vector);
        self.0 & 2 != 0
    }

    /// How the column says when it expires; where both expiry bits are set,
    /// the row's expiry counts.
    #[verifier::when_used_as_spec(spec_expiry)]
    pub fn expiry(&self) -> (r: ColumnExpiryKind)
        ensures
            r == self.spec_expiry(),
    {
        let bits: u8 = self.0;
        assert((bits & 8 != 0) == (bits / 8 % 2 == 1)) by (bit_vector);
        assert((bits & 4 != 0) == (bits / 4 % 2 == 1)) by (bit_vector);
        let row_expiry = self.0 & 8 != 0;
        let col_expiry = self.0 & 4 != 0;
        if row_expiry {
            ColumnExpiryKind::RowExpiry
        } else if col_expiry {
            ColumnExpiryKind::ColumnExpiry
        } else {
            ColumnExpiryKind::NoExpiry
        }
    }
}

/// A column's value as a mathematical value; a text is its UTF-8 bytes.
pub enum ValueView {
    Boolean(bool),
    Int(i32),
    BigInt(i64),
    Text(Seq<u8>),
}

/// A value of one of the column types.
#[derive(Copy, Clone, Debug, PartialOrd, Ord, PartialEq, Eq)]
pub enum ColumnValue<'a> {
    Boolean(bool),
    Int(i32),
    BigInt(i64),
    Text(&'a str),
}

impl<'a> View for ColumnValue<'a> {
    type V = ValueView;

    open spec fn view(&self) -> ValueView {
        match self {
            ColumnValue::Boolean(v) => ValueView::Boolean(*v),
            ColumnValue::Int(v) => ValueView::Int(*v),
            ColumnValue::BigInt(v) => ValueView::BigInt(*v),
            ColumnValue::Text(v) => ValueView::Text(v.spec_bytes()),
        }
    }
}

impl ValueView {
    /// The value is of the type `tpe`.
    pub open spec fn has_type(&self, tpe: ColumnType) -> bool {
        match self {
            ValueView::Boolean(_) => tpe == ColumnType::Boolean,
            ValueView::Int(_) => tpe == ColumnType::Int,
            ValueView::BigInt(_) => tpe == ColumnType::BigInt,
            ValueView::Text(_) => tpe == ColumnType::Text,
        }
    }

    /// The value can be written and read back: a text is valid UTF-8. The
    /// view of every `ColumnValue` is.
    pub open spec fn encodable(&self) -> bool {
        match self {
            ValueView::Text(t) => valid_utf8(*t),
            _ => true,
        }
    }

    /// The bytes of the value in a row.
    pub open spec fn bytes(&self) -> Seq<u8> {
        match self {
            ValueView::Boolean(v) => bool_bytes(*v),
            ValueView::Int(v) => varint_bytes(signed_code(*v as int)),
            ValueView::BigInt(v) => varint_bytes(signed_code(*v as int)),
            ValueView::Text(t) => utf8_bytes(*t),
        }
    }
}

/// A column as a mathematical value.
pub struct ColumnView {
    pub col_id: u8,
    pub timestamp: u64,
    pub expiry: Option<u32>,
    pub value: Option<ValueView>,
}

/// The logical content of a column in a row: what the row's buffer says of
/// it, with the timestamp and the expiry that it shares with the row filled in.
#[derive(Copy, Clone, Debug, Eq, PartialEq)]
pub struct ColumnData<'a> {
    pub col_id: ColumnId,
    pub timestamp: MergeTimestamp,
    pub expiry: Option<TtlTimestamp>,
    pub value: Option<ColumnValue<'a>>,
}

impl<'a> View for ColumnData<'a> {
    type V = ColumnView;

    open spec fn view(&self) -> ColumnView {
        ColumnView {
            col_id: self.col_id.0,
            timestamp: self.timestamp.ticks,
            expiry: match self.expiry {
                Some(t) => Some(t.epoch_seconds),
                None => None,
            },
            value: match self.value {
                Some(v) => Some(v@),
                None => None,
            },
        }
    }
}

impl<'a> ColumnData<'a> {
    /// The column with the given content.
    pub fn new(
        col_id: ColumnId,
        timestamp: MergeTimestamp,
        expiry: Option<TtlTimestamp>,
        value: Option<ColumnValue<'a>>,
    ) -> (r: ColumnData<'a>)
        requires
            col_id.0 <= MAX_COLUMN_ID,
        ensures
            r.col_id == col_id,
            r.timestamp == timestamp,
            r.expiry == expiry,
            r.value == value,
    {
        ColumnData { col_id, timestamp, expiry, value }
    }

    /// The one of two versions of a column that was written last. Versions
    /// with one timestamp are one version.
    pub fn merge<'b>(col1: ColumnData<'b>, col2: ColumnData<'b>) -> (r: ColumnData<'b>)
        requires
            col1.col_id == col2.col_id,
            col1.timestamp == col2.timestamp ==> col1@ == col2@,
        ensures
            r@ == merged_column(col1@, col2@),
            r == (if col1.timestamp.ticks > col2.timestamp.ticks {
                col1
            } else {
                col2
            }),
    {
        if col1.timestamp.ticks > col2.timestamp.ticks {
            col1
        } else {
            col2
        }
    }
}

/// The one of two versions of a column that has the greater timestamp; the
/// second where the timestamps are equal.
pub open spec fn merged_column(a: ColumnView, b: ColumnView) -> ColumnView {
    if a.timestamp > b.timestamp {
        a
    } else {
        b
    }
}

/// The views of the columns in a list.
pub open spec fn column_views(columns: Seq<ColumnData>) -> Seq<ColumnView> {
    Seq::new(columns.len(), |i: int| columns[i]@)
}

/// The value of the type `tpe` that starts at `offs` in `s`, and the offset
/// behind it; `None` where the bytes do not hold one.
pub open spec fn value_at(tpe: ColumnType, s: Seq<u8>, offs: int) -> Option<(ValueView, int)> {
    match tpe {
        ColumnType::Boolean => if 0 <= offs < s.len() {
            Some((ValueView::Boolean(s[offs] != 0), offs + 1))
        } else {
            None
        },
        ColumnType::Int => match varint_value(s, offs) {
            Some((code, next)) => if code <= u32::MAX {
                Some((ValueView::Int(signed_of_code(code) as i32), next))
            } else {
                None
            },
            None => None,
        },
        ColumnType::BigInt => match varint_value(s, offs) {
            Some((code, next)) => if code <= u64::MAX {
                Some((ValueView::BigInt(signed_of_code(code) as i64), next))
            } else {
                None
            },
            None => None,
        },
        ColumnType::Text => match prefixed_span(s, offs) {
            Some((start, end)) => if utf8_fits(s, offs) {
                Some((ValueView::Text(s.subrange(start, end)), end))
            } else {
                None
            },
            None => None,
        },
    }
}

/// The column that starts at `offs` in the row buffer `s`, and the offset
/// behind it. The row's timestamp and expiry stand in where the column's flags
/// refer to them. `None` where the bytes do not hold a column of the schema:
/// they end too early, the id is not in the schema, both expiry flags are set,
/// the column refers to a row expiry that the row does not have, or the value
/// is not one of the column's type.
pub open spec fn column_at(
    schema: &TableSchema,
    s: Seq<u8>,
    offs: int,
    row_timestamp: u64,
    row_expiry: Option<u32>,
) -> Option<(ColumnView, int)> {
    if offs < 0 || offs + 2 > s.len() {
        None
    } else {
        let col_id = s[offs];
        let flags = ColumnFlags(s[offs + 1]);
        let at_timestamp = offs + 2;
        let at_expiry = if flags.has_col_timestamp() {
            at_timestamp + 8
        } else {
            at_timestamp
        };
        let at_value = if flags.has_col_expiry() {
            at_expiry + 4
        } else {
            at_expiry
        };
        let timestamp = if flags.has_col_timestamp() {
            fixed_u64_value(s, at_timestamp) as u64
        } else {
            row_timestamp
        };
        let expiry = if flags.has_col_expiry() {
            Some(fixed_u32_value(s, at_expiry) as u32)
        } else if flags.has_row_expiry() {
            row_expiry
        } else {
            None
        };
        match schema.type_of(col_id) {
            None => None,
            Some(tpe) => if flags.has_col_expiry() && flags.has_row_expiry() {
                None
            } else if flags.has_row_expiry() && row_expiry is None {
                None
            } else if at_value > s.len() {
                None
            } else if flags.is_null() {
                Some((ColumnView { col_id, timestamp, expiry, value: None }, at_value))
            } else {
                match value_at(tpe, s, at_value) {
                    Some((v, next)) => Some(
                        (ColumnView { col_id, timestamp, expiry, value: Some(v) }, next),
                    ),
                    None => None,
                }
            },
        }
    }
}

/// The bytes of a column in a row with the given timestamp and expiry: the
/// id, the flags, the timestamp where it differs from the row's, the expiry
/// where there is one and it differs from the row's, and the value unless it
/// is NULL.
pub open spec fn column_bytes(c: ColumnView, row_timestamp: u64, row_expiry: Option<u32>) -> Seq<
    u8,
> {
    let has_timestamp = c.timestamp != row_timestamp;
    let has_col_expiry = c.expiry is Some && c.expiry != row_expiry;
    let has_row_expiry = c.expiry is Some && c.expiry == row_expiry;
    seq![c.col_id, ColumnFlags::bits(c.value is None, has_timestamp, has_col_expiry, has_row_expiry)]
        + (if has_timestamp {
        fixed_u64_bytes(c.timestamp)
    } else {
        Seq::empty()
    }) + (if has_col_expiry {
        fixed_u32_bytes(c.expiry.unwrap())
    } else {
        Seq::empty()
    }) + (match c.value {
        Some(v) => v.bytes(),
        None => Seq::empty(),
    })
}

/// Appends the bytes of `value` to `buf`.
pub fn write_value(buf: &mut Vec<u8>, value: ColumnValue)
    ensures
        final(buf)@ == old(buf)@ + value@.bytes(),
{
    match value {
        ColumnValue::Boolean(v) => buf.encode_bool(v),
        ColumnValue::Int(v) => buf.encode_varint_i32(v),
        ColumnValue::BigInt(v) => buf.encode_varint_i64(v),
        ColumnValue::Text(v) => buf.encode_utf8(v),
    }
}

/// Reads the value of the type `tpe` at `offs`, if one is there.
pub fn read_value<'a>(tpe: ColumnType, buf: &'a [u8], offs: usize) -> (r: Option<
    (ColumnValue<'a>, usize),
>)
    ensures
        r is Some <==> value_at(tpe, buf@, offs as int) is Some,
        r matches Some((v, next)) ==> value_at(tpe, buf@, offs as int) == Some((v@, next as int)),
{
    match tpe {
        ColumnType::Boolean => {
            if offs < buf.len() {
                Some((ColumnValue::Boolean(buf[offs] != 0), offs + 1))
            } else {
                None
            }
        },
        ColumnType::Int => match checked_varint(buf, offs, u32::MAX as u64) {
            Some((code, next)) => {
                let half: i32 = (code / 2) as i32;
                Some(
                    (
                        ColumnValue::Int(
                            if code % 2 == 0 {
                                half
                            } else {
                                -half - 1
                            },
                        ),
                        next,
                    ),
                )
            },
            None => None,
        },
        ColumnType::BigInt => match checked_varint(buf, offs, u64::MAX) {
            Some((code, next)) => {
                let half: i64 = (code / 2) as i64;
                Some(
                    (
                        ColumnValue::BigInt(
                            if code % 2 == 0 {
                                half
                            } else {
                                -half - 1
                            },
                        ),
                        next,
                    ),
                )
            },
            None => None,
        },
        ColumnType::Text => match checked_utf8(buf, offs) {
            Some((text, next)) => Some((ColumnValue::Text(text), next)),
            None => None,
        },
    }
}

/// Reads the column at `offs` of a row's buffer, if one of the schema is
/// there.
pub fn read_column<'a>(
    schema: &TableSchema,
    buf: &'a [u8],
    offs: usize,
    row_timestamp: MergeTimestamp,
    row_expiry: Option<TtlTimestamp>,
) -> (r: Option<(ColumnData<'a>, usize)>)
    ensures
        r is Some <==> column_at(
            schema,
            buf@,
            offs as int,
            row_timestamp.ticks,
            expiry_seconds(row_expiry),
        ) is Some,
        r matches Some((c, next)) ==> column_at(
            schema,
            buf@,
            offs as int,
            row_timestamp.ticks,
            expiry_seconds(row_expiry),
        ) == Some((c@, next as int)),
{
    let len: usize = buf.len();
    if len < 2 || offs > len - 2 {
        return None;
    }
    let col_id = ColumnId(buf[offs]);
    let flags = ColumnFlags(buf[offs + 1]);
    let tpe = match schema.find(col_id) {
        Some(at) => schema.columns[at].tpe,
        None => {
            return None;
        },
    };
    let mut at: usize = offs + 2;
    let kind = flags.expiry();
    let ghost bits = flags.0;
    let col_expiry_flag: bool = flags.0 & 4 != 0;
    assert((bits & 4 != 0) == (bits / 4 % 2 == 1)) by (bit_vector);
    if col_expiry_flag && kind == ColumnExpiryKind::RowExpiry {
        return None;
    }
    if kind == ColumnExpiryKind::RowExpiry && row_expiry.is_none() {
        return None;
    }
    let timestamp = if flags.has_col_timestamp() {
        if len - at < 8 {
            return None;
        }
        MergeTimestamp::from_ticks(buf.decode_fixed_u64(&mut at))
    } else {
        row_timestamp
    };
    let expiry = match kind {
        ColumnExpiryKind::NoExpiry => None,
        ColumnExpiryKind::RowExpiry => row_expiry,
        ColumnExpiryKind::ColumnExpiry => {
            if len - at < 4 {
                return None;
            }
            Some(TtlTimestamp::new(buf.decode_fixed_u32(&mut at)))
        },
    };
    if flags.is_null() {
        return Some((ColumnData { col_id, timestamp, expiry, value: None }, at));
    }
    match read_value(tpe, buf, at) {
        Some((v, next)) => Some((ColumnData { col_id, timestamp, expiry, value: Some(v) }, next)),
        None => None,
    }
}

/// The seconds of an expiry, if there is one.
pub open spec fn expiry_seconds(expiry: Option<TtlTimestamp>) -> Option<u32> {
    match expiry {
        Some(t) => Some(t.epoch_seconds),
        None => None,
    }
}

/// Reading the bytes of a value gives the value back, wherever they stand.
pub proof fn lemma_value_round_trip(tpe: ColumnType, s: Seq<u8>, offs: int, v: ValueView)
    requires
        v.has_type(tpe),
        v.encodable(),
        0 <= offs,
        offs + v.bytes().len() <= s.len(),
        s.subrange(offs, offs + v.bytes().len()) == v.bytes(),
    ensures
        value_at(tpe, s, offs) == Some((v, offs + v.bytes().len())),
{
    let enc = v.bytes();
    let part = s.subrange(offs, offs + enc.len());
    match v {
        ValueView::Boolean(b) => {
            assert(part[0] == s[offs]);
        },
        ValueView::Int(i) => {
            lemma_varint_round_trip(s, offs, signed_code(i as int));
        },
        ValueView::BigInt(i) => {
            lemma_varint_round_trip(s, offs, signed_code(i as int));
        },
        ValueView::Text(t) => {
            let prefix = varint_bytes(t.len());
            lemma_varint_len(t.len());
            assert(s.subrange(offs, offs + prefix.len()) =~= prefix) by {
                assert forall|j: int| 0 <= j < prefix.len() implies s[offs + j] == prefix[j] by {
                    assert(part[j] == s[offs + j]);
                    assert(enc[j] == prefix[j]);
                }
            }
            lemma_varint_round_trip(s, offs, t.len());
            let start = offs + prefix.len();
            assert(s.subrange(start, start + t.len()) =~= t) by {
                assert forall|j: int| 0 <= j < t.len() implies s[start + j] == t[j] by {
                    assert(part[prefix.len() + j] == s[start + j]);
                    assert(enc[prefix.len() + j] == t[j]);
                }
            }
        },
    }
}

/// The flags byte that is made of four bits gives the four bits back.
pub proof fn lemma_flags_round_trip(
    is_null: bool,
    has_timestamp: bool,
    has_col_expiry: bool,
    has_row_expiry: bool,
)
    ensures
        ({
            let flags = ColumnFlags(
                ColumnFlags::bits(is_null, has_timestamp, has_col_expiry, has_row_expiry),
            );
            &&& flags.is_null() == is_null
            &&& flags.has_col_timestamp() == has_timestamp
            &&& flags.has_col_expiry() == has_col_expiry
            &&& flags.has_row_expiry() == has_row_expiry
        }),
{
}

/// In bytes that hold four parts one after the other from `offs` on, each
/// part stands where the lengths of those before it say.
proof fn lemma_parts_at(s: Seq<u8>, offs: int, a: Seq<u8>, b: Seq<u8>, c: Seq<u8>, d: Seq<u8>)
    requires
        0 <= offs,
        offs + (a + b + c + d).len() <= s.len(),
        s.subrange(offs, offs + (a + b + c + d).len()) == a + b + c + d,
    ensures
        ({
            let at_b = offs + a.len();
            let at_c = at_b + b.len();
            let at_d = at_c + c.len();
            &&& at_d + d.len() <= s.len()
            &&& s.subrange(offs, at_b) == a
            &&& s.subrange(at_b, at_c) == b
            &&& s.subrange(at_c, at_d) == c
            &&& s.subrange(at_d, at_d + d.len()) == d
        }),
{
    let all = a + b + c + d;
    let part = s.subrange(offs, offs + all.len());
    let at_b = offs + a.len();
    let at_c = at_b + b.len();
    let at_d = at_c + c.len();
    assert(s.subrange(offs, at_b) =~= a) by {
        assert forall|t: int| 0 <= t < a.len() implies s[offs + t] == a[t] by {
            assert(part[t] == s[offs + t]);
            assert(all[t] == a[t]);
        }
    }
    assert(s.subrange(at_b, at_c) =~= b) by {
        assert forall|t: int| 0 <= t < b.len() implies s[at_b + t] == b[t] by {
            assert(part[a.len() + t] == s[at_b + t]);
            assert(all[a.len() + t] == b[t]);
        }
    }
    assert(s.subrange(at_c, at_d) =~= c) by {
        assert forall|t: int| 0 <= t < c.len() implies s[at_c + t] == c[t] by {
            assert(part[a.len() + b.len() + t] == s[at_c + t]);
            assert(all[a.len() + b.len() + t] == c[t]);
        }
    }
    assert(s.subrange(at_d, at_d + d.len()) =~= d) by {
        assert forall|t: int| 0 <= t < d.len() implies s[at_d + t] == d[t] by {
            assert(part[a.len() + b.len() + c.len() + t] == s[at_d + t]);
            assert(all[a.len() + b.len() + c.len() + t] == d[t]);
        }
    }
}

/// Reading the bytes of a column gives the column back, wherever they stand:
/// for a column of the schema whose value, if it has one, is of the column's
/// type and can be written.
pub proof fn lemma_column_round_trip(
    schema: &TableSchema,
    s: Seq<u8>,
    offs: int,
    c: ColumnView,
    row_timestamp: u64,
    row_expiry: Option<u32>,
)
    requires
        schema.type_of(c.col_id) is Some,
        c.value matches Some(v) ==> v.has_type(schema.type_of(c.col_id).unwrap())
            && v.encodable(),
        0 <= offs,
        offs + column_bytes(c, row_timestamp, row_expiry).len() <= s.len(),
        s.subrange(offs, offs + column_bytes(c, row_timestamp, row_expiry).len()) == column_bytes(
            c,
            row_timestamp,
            row_expiry,
        ),
    ensures
        column_at(schema, s, offs, row_timestamp, row_expiry) == Some(
            (c, offs + column_bytes(c, row_timestamp, row_expiry).len()),
        ),
{
    let has_timestamp = c.timestamp != row_timestamp;
    let has_col_expiry = c.expiry is Some && c.expiry != row_expiry;
    let has_row_expiry = c.expiry is Some && c.expiry == row_expiry;
    let bits = ColumnFlags::bits(c.value is None, has_timestamp, has_col_expiry, has_row_expiry);
    let head = seq![c.col_id, bits];
    let ts_bytes = if has_timestamp {
        fixed_u64_bytes(c.timestamp)
    } else {
        Seq::empty()
    };
    let exp_bytes = if has_col_expiry {
        fixed_u32_bytes(c.expiry.unwrap())
    } else {
        Seq::empty()
    };
    let val_bytes = match c.value {
        Some(v) => v.bytes(),
        None => Seq::empty(),
    };
    assert(column_bytes(c, row_timestamp, row_expiry) == head + ts_bytes + exp_bytes + val_bytes);
    lemma_parts_at(s, offs, head, ts_bytes, exp_bytes, val_bytes);
    lemma_flags_round_trip(c.value is None, has_timestamp, has_col_expiry, has_row_expiry);
    let at_timestamp = offs + 2;
    let at_expiry = at_timestamp + ts_bytes.len();
    let at_value = at_expiry + exp_bytes.len();
    assert(s.subrange(offs, offs + 2)[0] == s[offs]);
    assert(s.subrange(offs, offs + 2)[1] == s[offs + 1]);
    assert(s[offs] == c.col_id);
    assert(s[offs + 1] == bits);
    if has_timestamp {
        assert(ts_bytes.len() == 8);
        lemma_fixed_u64_round_trip(s, at_timestamp, c.timestamp);
    }
    if has_col_expiry {
        assert(exp_bytes.len() == 4);
        lemma_fixed_u32_round_trip(s, at_expiry, c.expiry.unwrap());
    }
    match c.value {
        Some(v) => {
            lemma_value_round_trip(schema.type_of(c.col_id).unwrap(), s, at_value, v);
        },
        None => {},
    }
}

/// A value that is read from bytes is of the type that was asked for and can
/// be written again.
pub proof fn lemma_value_at_fits(tpe: ColumnType, s: Seq<u8>, offs: int)
    requires
        value_at(tpe, s, offs) is Some,
    ensures
        (value_at(tpe, s, offs)->0).0.has_type(tpe),
        (value_at(tpe, s, offs)->0).0.encodable(),
{
    match tpe {
        ColumnType::Boolean => {},
        ColumnType::Int => {
            let code = (varint_value(s, offs)->0).0;
            assert(code as int / 2 <= 0x7fff_ffff);
        },
        ColumnType::BigInt => {
            let code = (varint_value(s, offs)->0).0;
            assert(code as int / 2 <= 0x7fff_ffff_ffff_ffff);
        },
        ColumnType::Text => {
            lemma_varint_value_low(s, offs);
        },
    }
}

/// A column that is read from a row belongs to the schema, and its value, if
/// it has one, is of the column's type and can be written again.
pub proof fn lemma_column_at_fits(
    schema: &TableSchema,
    s: Seq<u8>,
    offs: int,
    row_timestamp: u64,
    row_expiry: Option<u32>,
)
    requires
        column_at(schema, s, offs, row_timestamp, row_expiry) is Some,
    ensures
        ({
            let c = (column_at(schema, s, offs, row_timestamp, row_expiry)->0).0;
            &&& schema.type_of(c.col_id) is Some
            &&& c.value matches Some(v) ==> v.has_type(schema.type_of(c.col_id).unwrap())
                && v.encodable()
        }),
{
    let flags = ColumnFlags(s[offs + 1]);
    let at_expiry = if flags.has_col_timestamp() {
        offs + 2 + 8
    } else {
        offs + 2
    };
    let at_value = if flags.has_col_expiry() {
        at_expiry + 4
    } else {
        at_expiry
    };
    if !flags.is_null() {
        lemma_value_at_fits(schema.type_of(s[offs]).unwrap(), s, at_value);
    }
}

/// The view of a value can be written and read back.
pub proof fn lemma_view_encodable(v: ColumnValue)
    ensures
        v@.encodable(),
{
    match v {
        ColumnValue::Text(t) => {
            vstd::utf8::encode_utf8_valid_utf8(t@);
        },
        _ => {},
    }
}

} // verus!
