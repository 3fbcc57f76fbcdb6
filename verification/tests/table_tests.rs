use std::cmp::Ordering;
use std::sync::Arc;

use uuid::Uuid;

use hugetable::column::{
    read_column, ColumnData, ColumnExpiryKind, ColumnFlags, ColumnValue, RowFlags,
};
use hugetable::error::HtError;
use hugetable::pk::{compare_bytes, compare_values, PkOrder};
use hugetable::primitives::DecodePrimitives;
use hugetable::row::{most_frequent_value, DetachedRowData, RowData};
use hugetable::schema::{ColumnId, ColumnSchema, ColumnType, PrimaryKeySpec, TableSchema};
use hugetable::time::{HtClock, ManualClock, MergeTimestamp, TtlTimestamp};

fn table_schema() -> TableSchema {
    TableSchema::new(
        "my_table",
        &Uuid::new_v4(),
        vec![
            ColumnSchema {
                col_id: ColumnId(0),
                name: "part_key".to_string(),
                tpe: ColumnType::BigInt,
                pk_spec: PrimaryKeySpec::PartitionKey,
            },
            ColumnSchema {
                col_id: ColumnId(33),
                name: "cl_key_1".to_string(),
                tpe: ColumnType::Int,
                pk_spec: PrimaryKeySpec::ClusterKey(false),
            },
            ColumnSchema {
                col_id: ColumnId(22),
                name: "cl_key_2".to_string(),
                tpe: ColumnType::Text,
                pk_spec: PrimaryKeySpec::ClusterKey(true),
            },
            ColumnSchema {
                col_id: ColumnId(11),
                name: "regular".to_string(),
                tpe: ColumnType::Boolean,
                pk_spec: PrimaryKeySpec::Regular,
            },
        ],
    )
}

#[test]
pub fn test_table_schema() {
    let table_schema = table_schema();

    assert_eq!(
        &table_schema
            .pk_columns
            .iter()
            .map(|c| &c.name)
            .collect::<Vec<&String>>(),
        &vec!("part_key", "cl_key_1", "cl_key_2")
    );

    assert_eq!(table_schema.column(ColumnId(0)).unwrap().name, "part_key");
    assert_eq!(table_schema.column(ColumnId(33)).unwrap().name, "cl_key_1");
    assert_eq!(table_schema.column(ColumnId(22)).unwrap().name, "cl_key_2");
    assert_eq!(table_schema.column(ColumnId(11)).unwrap().name, "regular");

    assert!(table_schema.column(ColumnId(1)).is_err());
}

fn col1_data(timestamp: MergeTimestamp, v: i64) -> ColumnData<'static> {
    ColumnData {
        col_id: ColumnId(0),
        timestamp,
        expiry: None,
        value: Some(ColumnValue::BigInt(v)),
    }
}

fn col2_data(timestamp: MergeTimestamp, v: i32) -> ColumnData<'static> {
    ColumnData {
        col_id: ColumnId(33),
        timestamp,
        expiry: None,
        value: Some(ColumnValue::Int(v)),
    }
}

fn col3_data<'a>(timestamp: MergeTimestamp, v: &'a str) -> ColumnData<'a> {
    ColumnData {
        col_id: ColumnId(22),
        timestamp,
        expiry: None,
        value: Some(ColumnValue::Text(v)),
    }
}

fn col4_data(timestamp: MergeTimestamp, v: Option<bool>) -> ColumnData<'static> {
    ColumnData {
        col_id: ColumnId(11),
        timestamp,
        expiry: None,
        value: v.map(|b| ColumnValue::Boolean(b)),
    }
}

#[test]
pub fn test_detached_row_data() {
    let table_schema = table_schema();

    let mut clock = ManualClock::new(MergeTimestamp::from_ticks(123456789));

    let columns = vec![
        col1_data(clock.now().unwrap(), 12345),
        col2_data(clock.now().unwrap(), 123),
        col3_data(clock.now().unwrap(), "yo"),
        col4_data(clock.now().unwrap(), Some(true)),
    ];

    let row = DetachedRowData::assemble(&Arc::new(table_schema), &columns);

    let row_data = row.row_data_view();

    assert_eq!(row.schema.table_id, row_data.schema.table_id);

    let mut v2 = Vec::new();
    row_data.write_to(&mut v2);

    let mut offs = 0;
    assert_eq!(v2.decode_varint_usize(&mut offs), row.buf.len());
    assert_eq!(&row.buf, &&v2[offs..]);
    assert_eq!(RowFlags::create(false), row_data.flags());

    let mut offs = row_data.offs_start_column_data().unwrap();
    let col = row_data.read_col(clock.now().unwrap(), None, &mut offs);
    assert_eq!(col.col_id, ColumnId(0));
    assert_eq!(col.value, Some(ColumnValue::BigInt(12345)));

    let col = row_data.read_col(clock.now().unwrap(), None, &mut offs);
    assert_eq!(col.col_id, ColumnId(33));
    assert_eq!(col.value, Some(ColumnValue::Int(123)));

    let col = row_data.read_col(clock.now().unwrap(), None, &mut offs);
    assert_eq!(col.col_id, ColumnId(22));
    assert_eq!(col.value, Some(ColumnValue::Text("yo")));

    let col = row_data.read_col(clock.now().unwrap(), None, &mut offs);
    assert_eq!(col.col_id, ColumnId(11));
    assert_eq!(col.value, Some(ColumnValue::Boolean(true)));
    assert_eq!(offs, row.buf.len());
}

#[test]
pub fn test_row_data_null_value() {
    let table_schema = table_schema();

    let mut clock = ManualClock::new(MergeTimestamp::from_ticks(123456789));

    let row = DetachedRowData::assemble(
        &Arc::new(table_schema),
        &vec![col4_data(clock.now().unwrap(), None)],
    );

    let row_data = row.row_data_view();

    let mut offs = row_data.offs_start_column_data().unwrap();
    let col = row_data.read_col(clock.now().unwrap(), None, &mut offs);
    assert_eq!(col.value, None);
}

fn row(v1: i64, v2: i32, v3: &'static str, v4: Option<bool>) -> DetachedRowData {
    let table_schema = Arc::new(table_schema());
    let mut clock = ManualClock::new(MergeTimestamp::from_ticks(123456789));

    DetachedRowData::assemble(
        &table_schema,
        &vec![
            col1_data(clock.now().unwrap(), v1),
            col2_data(clock.now().unwrap(), v2),
            col3_data(clock.now().unwrap(), v3),
            col4_data(clock.now().unwrap(), v4),
        ],
    )
}

#[test]
pub fn test_compare_by_pk() {
    let row0 = row(100, 100, "hi", Some(true));

    let row_greater_1 = row(101, 101, "a", Some(true));
    let row_less_1 = row(99, 99, "z", Some(true));

    let row_greater_2 = row(100, 99, "a", Some(true));
    let row_less_2 = row(100, 101, "z", Some(true));

    let row_greater_3 = row(100, 100, "z", Some(true));
    let row_less_3 = row(100, 100, "a", Some(true));

    let row_regular_different = row(100, 100, "hi", Some(false));
    let row_regular_different2 = row(100, 100, "hi", None);

    let rd0 = row0.row_data_view();

    let rd_greater_1 = row_greater_1.row_data_view();
    let rd_less_1 = row_less_1.row_data_view();

    let rd_greater_2 = row_greater_2.row_data_view();
    let rd_less_2 = row_less_2.row_data_view();

    let rd_greater_3 = row_greater_3.row_data_view();
    let rd_less_3 = row_less_3.row_data_view();

    let rd_regular_different = row_regular_different.row_data_view();
    let rd_regular_different2 = row_regular_different2.row_data_view();

    assert_eq!(rd0.compare_by_pk(&rd_greater_1), Ordering::Less);
    assert_eq!(rd0.compare_by_pk(&rd_less_1), Ordering::Greater);

    assert_eq!(rd0.compare_by_pk(&rd_greater_2), Ordering::Less);
    assert_eq!(rd0.compare_by_pk(&rd_less_2), Ordering::Greater);

    assert_eq!(rd0.compare_by_pk(&rd_greater_3), Ordering::Less);
    assert_eq!(rd0.compare_by_pk(&rd_less_3), Ordering::Greater);

    assert_eq!(rd0.compare_by_pk(&rd_regular_different), Ordering::Equal);
    assert_eq!(rd0.compare_by_pk(&rd_regular_different2), Ordering::Equal);
}

#[test]
pub fn compare_by_pk_follows_the_scenario_of_mixed_directions() {
    let a = row(100, 100, "hi", Some(true));
    let b = row(101, 101, "a", Some(true));
    let c = row(100, 101, "z", Some(true));
    let d = row(100, 100, "hi", Some(false));
    assert_eq!(a.row_data_view().compare_by_pk(&b.row_data_view()), Ordering::Less);
    assert_eq!(a.row_data_view().compare_by_pk(&c.row_data_view()), Ordering::Greater);
    assert_eq!(a.row_data_view().compare_by_pk(&d.row_data_view()), Ordering::Equal);
    assert_eq!(a.row_data_view().pk_order(&b.row_data_view()), PkOrder::Less);
    assert_eq!(b.row_data_view().pk_order(&a.row_data_view()), PkOrder::Greater);
}

#[test]
pub fn row_bytes_follow_the_layout() {
    let schema = Arc::new(table_schema());
    let ts = MergeTimestamp::from_ticks(0x0102030405060708);
    let other = MergeTimestamp::from_ticks(5);
    let exp = TtlTimestamp::new(0x0a0b0c0d);
    let columns = vec![
        ColumnData::new(ColumnId(0), ts, Some(exp), Some(ColumnValue::BigInt(-3))),
        ColumnData::new(ColumnId(33), ts, None, Some(ColumnValue::Int(300))),
        ColumnData::new(ColumnId(22), other, Some(TtlTimestamp::new(1)), Some(ColumnValue::Text("hé"))),
        ColumnData::new(ColumnId(11), ts, Some(exp), None),
    ];
    let row = DetachedRowData::assemble(&schema, &columns);
    let expected: Vec<u8> = vec![
        // row flags: has a row expiry
        1,
        // row timestamp, little endian
        8, 7, 6, 5, 4, 3, 2, 1,
        // row expiry, little endian
        0x0d, 0x0c, 0x0b, 0x0a,
        // column 0: uses the row expiry; value -3 has the code 5
        0, 8, 5,
        // column 33: no flags; value 300 has the code 600
        33, 0, 0xd8, 0x04,
        // column 22: own timestamp and own expiry
        22, 2 | 4, 5, 0, 0, 0, 0, 0, 0, 0, 1, 0, 0, 0, 3, b'h', 0xc3, 0xa9,
        // column 11: NULL, uses the row expiry
        11, 1 | 8,
    ];
    assert_eq!(row.buf, expected);

    let view = row.row_data_view();
    assert!(view.validate().is_ok());
    assert!(view.is_keyed());
    assert_eq!(view.flags(), RowFlags::create(true));
    assert!(view.flags().has_row_expiry());
    assert_eq!(view.timestamp(), ts);
    assert_eq!(view.expiry(), Some(exp));
    assert_eq!(view.column_list(), columns);
}

#[test]
pub fn assembled_columns_are_read_back() {
    let schema = Arc::new(table_schema());
    let t1 = MergeTimestamp::from_ticks(10);
    let t2 = MergeTimestamp::from_ticks(20);
    let columns = vec![
        ColumnData::new(ColumnId(0), t1, None, Some(ColumnValue::BigInt(i64::MAX))),
        ColumnData::new(ColumnId(33), t2, Some(TtlTimestamp::new(7)), Some(ColumnValue::Int(-i32::MAX))),
        ColumnData::new(ColumnId(22), t2, Some(TtlTimestamp::new(8)), Some(ColumnValue::Text(""))),
        ColumnData::new(ColumnId(11), t1, Some(TtlTimestamp::new(8)), Some(ColumnValue::Boolean(false))),
    ];
    let row = DetachedRowData::assemble(&schema, &columns);
    let view = row.row_data_view();
    assert!(view.validate().is_ok());
    // the most frequent timestamp and expiry: of two that are equally frequent, the first
    assert_eq!(view.timestamp(), t1);
    assert_eq!(view.expiry(), Some(TtlTimestamp::new(8)));
    assert_eq!(view.column_list(), columns);

    let mut iter = view.columns();
    assert_eq!(iter.next(), Some(columns[0]));
    assert_eq!(iter.next(), Some(columns[1]));
    assert_eq!(iter.next(), Some(columns[2]));
    assert_eq!(iter.next(), Some(columns[3]));
    assert_eq!(iter.next(), None);
    assert_eq!(iter.next(), None);

    assert_eq!(view.read_col_by_id(ColumnId(22)), Some(columns[2]));
    assert_eq!(view.read_col_by_id(ColumnId(11)), Some(columns[3]));
    assert_eq!(view.read_col_by_id(ColumnId(5)), None);
}

#[test]
pub fn empty_text_round_trips() {
    let schema = Arc::new(table_schema());
    let t = MergeTimestamp::from_ticks(10);
    let columns = vec![ColumnData::new(ColumnId(22), t, None, Some(ColumnValue::Text("")))];
    let row = DetachedRowData::assemble(&schema, &columns);
    assert_eq!(row.buf[9..], [22, 0, 0]);
    assert_eq!(
        row.row_data_view().read_col_by_id(ColumnId(22)).unwrap().value,
        Some(ColumnValue::Text(""))
    );
}

#[test]
pub fn validate_rejects_malformed_rows() {
    let schema = Arc::new(table_schema());
    let good = row(1, 2, "x", Some(true));
    assert!(good.row_data_view().validate().is_ok());

    let check = |bytes: &[u8]| match RowData::from_view(&schema, bytes).validate() {
        Err(HtError::FileIntegrity(_)) => true,
        _ => false,
    };
    // no complete header
    assert!(check(&[]));
    assert!(check(&[0, 1, 2, 3]));
    assert!(check(&[1, 0, 0, 0, 0, 0, 0, 0, 0, 1, 2]));
    // cut off in the middle of a column
    assert!(check(&good.buf[..good.buf.len() - 1]));
    // a column id that the schema does not have
    assert!(check(&[0, 0, 0, 0, 0, 0, 0, 0, 0, 1, 1]));
    // both expiry flags
    assert!(check(&[1, 0, 0, 0, 0, 0, 0, 0, 0, 0, 0, 0, 0, 11, 1 | 4 | 8, 0, 0, 0, 0]));
    // a row expiry that the row does not have
    assert!(check(&[0, 0, 0, 0, 0, 0, 0, 0, 0, 11, 1 | 8]));
    // text that is not UTF-8
    assert!(check(&[0, 0, 0, 0, 0, 0, 0, 0, 0, 22, 0, 2, 0xc3, 0x28]));
    // an integer that does not fit its type
    assert!(check(&[0, 0, 0, 0, 0, 0, 0, 0, 0, 33, 0, 0xff, 0xff, 0xff, 0xff, 0x1f]));

    // a header alone is a row without columns
    assert!(RowData::from_view(&schema, &[0, 0, 0, 0, 0, 0, 0, 0, 0]).validate().is_ok());
    // but it does not start with its key
    assert!(!RowData::from_view(&schema, &[0, 0, 0, 0, 0, 0, 0, 0, 0]).is_keyed());
    // nor does a row whose key column is NULL
    let t = MergeTimestamp::from_ticks(1);
    let null_key = DetachedRowData::assemble(
        &schema,
        &vec![
            ColumnData::new(ColumnId(0), t, None, None),
            col2_data(t, 1),
            col3_data(t, "a"),
        ],
    );
    assert!(null_key.row_data_view().validate().is_ok());
    assert!(!null_key.is_keyed());
    // nor one whose key columns are out of order
    let mut swapped = vec![0u8, 1, 0, 0, 0, 0, 0, 0, 0];
    swapped.extend_from_slice(&[33, 0, 2, 0, 0, 2, 22, 0, 1, b'a']);
    let swapped = RowData::from_view(&schema, &swapped);
    assert!(swapped.validate().is_ok());
    assert!(!swapped.check_key());
    assert!(!swapped.check_order());
    assert!(!swapped.is_keyed());
}

#[test]
pub fn flags_hold_their_bits() {
    assert_eq!(RowFlags::create(true), RowFlags(1));
    assert_eq!(RowFlags::create(false), RowFlags(0));
    assert!(!RowFlags::create(false).has_row_expiry());

    let f = ColumnFlags::new(true, false, true, false);
    assert_eq!(f, ColumnFlags(5));
    assert!(f.is_null());
    assert!(!f.has_col_timestamp());
    assert_eq!(f.expiry(), ColumnExpiryKind::ColumnExpiry);

    let f = ColumnFlags::new(false, true, false, true);
    assert_eq!(f, ColumnFlags(10));
    assert!(!f.is_null());
    assert!(f.has_col_timestamp());
    assert_eq!(f.expiry(), ColumnExpiryKind::RowExpiry);

    assert_eq!(ColumnFlags::new(false, false, false, false).expiry(), ColumnExpiryKind::NoExpiry);
}

#[test]
pub fn column_merge_keeps_the_later_version() {
    let old = ColumnData::new(ColumnId(1), MergeTimestamp::from_ticks(5), None, Some(ColumnValue::Int(1)));
    let new = ColumnData::new(ColumnId(1), MergeTimestamp::from_ticks(6), None, Some(ColumnValue::Int(2)));
    assert_eq!(ColumnData::merge(old, new), new);
    assert_eq!(ColumnData::merge(new, old), new);
    assert_eq!(ColumnData::merge(new, new), new);
}

#[test]
pub fn most_frequent_value_prefers_the_first_of_equals() {
    assert_eq!(most_frequent_value(&vec![4]), 4);
    assert_eq!(most_frequent_value(&vec![4, 5, 5, 4]), 4);
    assert_eq!(most_frequent_value(&vec![4, 5, 5, 4, 5]), 5);
    assert_eq!(most_frequent_value(&vec![1, 2, 3]), 1);
    assert_eq!(most_frequent_value(&vec![3, 2, 2]), 2);
}

#[test]
pub fn values_compare_as_their_types_say() {
    assert_eq!(compare_values(&ColumnValue::Boolean(false), &ColumnValue::Boolean(true)), PkOrder::Less);
    assert_eq!(compare_values(&ColumnValue::Boolean(true), &ColumnValue::Boolean(true)), PkOrder::Equal);
    assert_eq!(compare_values(&ColumnValue::Int(-5), &ColumnValue::Int(3)), PkOrder::Less);
    assert_eq!(compare_values(&ColumnValue::BigInt(7), &ColumnValue::BigInt(-7)), PkOrder::Greater);
    assert_eq!(compare_values(&ColumnValue::Text("ab"), &ColumnValue::Text("abc")), PkOrder::Less);
    assert_eq!(compare_values(&ColumnValue::Text("b"), &ColumnValue::Text("abc")), PkOrder::Greater);
    assert_eq!(compare_values(&ColumnValue::Text(""), &ColumnValue::Text("")), PkOrder::Equal);
    assert_eq!(compare_values(&ColumnValue::Int(100), &ColumnValue::BigInt(1)), PkOrder::Less);
    assert_eq!(compare_values(&ColumnValue::Text(""), &ColumnValue::Boolean(true)), PkOrder::Greater);
    assert_eq!(compare_bytes(&[1, 2], &[1, 2, 0]), PkOrder::Less);
    assert_eq!(compare_bytes(&[1, 3], &[1, 2, 0]), PkOrder::Greater);
    assert_eq!(PkOrder::Less.reverse(), PkOrder::Greater);
    assert_eq!(PkOrder::Equal.reverse(), PkOrder::Equal);

    // the order that the values have by themselves
    let pairs = [
        (ColumnValue::Boolean(false), ColumnValue::Boolean(true)),
        (ColumnValue::Int(1), ColumnValue::Int(2)),
        (ColumnValue::Text("a"), ColumnValue::Text("ä")),
        (ColumnValue::BigInt(5), ColumnValue::Text("a")),
    ];
    for (a, b) in pairs.iter() {
        let expected = match a.cmp(b) {
            Ordering::Less => PkOrder::Less,
            Ordering::Equal => PkOrder::Equal,
            Ordering::Greater => PkOrder::Greater,
        };
        assert_eq!(compare_values(a, b), expected);
    }
}

#[test]
pub fn read_column_says_where_no_column_is() {
    let schema = Arc::new(table_schema());
    let t = MergeTimestamp::from_ticks(1);
    let buf = [11u8, 0, 1, 11, 2 | 8, 9];
    let (col, next) = read_column(&schema, &buf, 0, t, None).unwrap();
    assert_eq!(col, ColumnData::new(ColumnId(11), t, None, Some(ColumnValue::Boolean(true))));
    assert_eq!(next, 3);
    // refers to a row expiry that is not there, and lacks its timestamp
    assert_eq!(read_column(&schema, &buf, 3, t, None), None);
    assert_eq!(read_column(&schema, &buf, 3, t, Some(TtlTimestamp::new(4))), None);
    assert_eq!(read_column(&schema, &buf, 5, t, None), None);
    assert_eq!(read_column(&schema, &buf, 6, t, None), None);
}

#[test]
pub fn header_values_are_the_most_frequent_of_the_columns() {
    let t1 = MergeTimestamp::from_ticks(1);
    let t2 = MergeTimestamp::from_ticks(2);
    let e1 = Some(TtlTimestamp::new(10));
    let e2 = Some(TtlTimestamp::new(20));
    let columns = vec![
        ColumnData::new(ColumnId(0), t1, None, None),
        ColumnData::new(ColumnId(1), t2, e1, None),
        ColumnData::new(ColumnId(2), t2, e2, None),
        ColumnData::new(ColumnId(3), t1, e2, None),
        ColumnData::new(ColumnId(4), t2, None, None),
    ];
    assert_eq!(DetachedRowData::most_frequent_timestamp(&columns), t2);
    assert_eq!(DetachedRowData::most_frequent_expiry(&columns), e2);
    assert_eq!(DetachedRowData::most_frequent_expiry(&columns[..1].to_vec()), None);

    let mut buf = vec![0xee];
    DetachedRowData::encode_column(&mut buf, &columns[1], t2, e2);
    assert_eq!(buf, vec![0xee, 1, 1 | 4, 10, 0, 0, 0]);
    let mut buf = Vec::new();
    DetachedRowData::encode_column(&mut buf, &columns[3], t2, e2);
    assert_eq!(buf, vec![3, 1 | 2 | 8, 1, 0, 0, 0, 0, 0, 0, 0]);
}

#[test]
pub fn schema_validation_finds_bad_ids() {
    assert!(table_schema().validate().is_ok());
    let column = |id: u8| ColumnSchema {
        col_id: ColumnId(id),
        name: "c".to_string(),
        tpe: ColumnType::Int,
        pk_spec: PrimaryKeySpec::Regular,
    };
    let id = Uuid::new_v4();
    assert!(TableSchema::new("t", &id, vec![column(0), column(63)]).validate().is_ok());
    assert!(TableSchema::new("t", &id, vec![column(0), column(64)]).validate().is_err());
    assert!(TableSchema::new("t", &id, vec![column(5), column(1), column(5)]).validate().is_err());
    assert!(TableSchema::new("t", &id, vec![]).validate().is_ok());
}

#[test]
pub fn assemble_stores_the_columns_in_the_order_of_the_schema() {
    // the key columns of this schema have the ids 0, 33, 22; the column 11 is regular
    let schema = Arc::new(table_schema());
    let t = MergeTimestamp::from_ticks(1);
    let in_order = vec![col1_data(t, 1), col2_data(t, 3), col3_data(t, "a"), col4_data(t, None)];
    let expected = DetachedRowData::assemble(&schema, &in_order);
    assert_eq!(expected.row_data_view().column_list(), in_order);
    assert!(expected.row_data_view().check_order());
    assert!(expected.is_keyed());

    // whatever the order in which the columns are handed over
    let shuffled = vec![col4_data(t, None), col3_data(t, "a"), col1_data(t, 1), col2_data(t, 3)];
    let row = DetachedRowData::assemble(&schema, &shuffled);
    assert_eq!(row.buf, expected.buf);
    let reversed = vec![col4_data(t, None), col3_data(t, "a"), col2_data(t, 3), col1_data(t, 1)];
    assert_eq!(DetachedRowData::assemble(&schema, &reversed).buf, expected.buf);

    // columns with one id stay in the order given, and the row is not in order
    let twice = DetachedRowData::assemble(
        &schema,
        &vec![col4_data(t, Some(true)), col1_data(t, 1), col4_data(t, Some(false))],
    );
    assert_eq!(
        twice.row_data_view().column_list(),
        vec![col1_data(t, 1), col4_data(t, Some(true)), col4_data(t, Some(false))]
    );
    assert!(!twice.row_data_view().check_order());
    assert!(!twice.is_keyed());

    assert_eq!(schema.rank_of(ColumnId(0)), 0);
    assert_eq!(schema.rank_of(ColumnId(33)), 1);
    assert_eq!(schema.rank_of(ColumnId(22)), 2);
    assert_eq!(schema.rank_of(ColumnId(11)), 3 + 11);
    assert_eq!(schema.rank_of(ColumnId(5)), 3 + 5);
}

#[test]
pub fn regular_columns_are_stored_by_ascending_id() {
    let schema = Arc::new(TableSchema::new(
        "t",
        &Uuid::new_v4(),
        (0..6u8)
            .map(|id| ColumnSchema {
                col_id: ColumnId(id),
                name: format!("c{}", id),
                tpe: ColumnType::Int,
                pk_spec: if id == 0 { PrimaryKeySpec::PartitionKey } else { PrimaryKeySpec::Regular },
            })
            .collect(),
    ));
    let t = MergeTimestamp::from_ticks(1);
    let col = |id: u8| ColumnData::new(ColumnId(id), t, None, Some(ColumnValue::Int(id as i32)));
    let row = DetachedRowData::assemble(&schema, &vec![col(4), col(2), col(0), col(5), col(1)]);
    assert_eq!(
        row.row_data_view().column_list(),
        vec![col(0), col(1), col(2), col(4), col(5)]
    );
    assert!(row.is_keyed());
}

#[test]
pub fn the_least_integers_round_trip() {
    let schema = Arc::new(table_schema());
    let t = MergeTimestamp::from_ticks(1);
    let columns = vec![col1_data(t, i64::MIN), col2_data(t, i32::MIN), col3_data(t, "")];
    let row = DetachedRowData::assemble(&schema, &columns);
    assert!(row.is_keyed());
    assert_eq!(row.row_data_view().column_list(), columns);
    // the codes are the greatest of their width
    assert_eq!(
        row.buf[9..],
        [
            0, 0, 0xff, 0xff, 0xff, 0xff, 0xff, 0xff, 0xff, 0xff, 0xff, 0x01, 33, 0, 0xff, 0xff,
            0xff, 0xff, 0x0f, 22, 0, 0
        ]
    );
}

#[test]
pub fn errors_carry_their_message() {
    match HtError::misc("a") {
        HtError::Misc(m) => assert_eq!(m, "a"),
        _ => panic!("expected a usage error"),
    }
    match HtError::file_integrity("b") {
        HtError::FileIntegrity(m) => assert_eq!(m, "b"),
        _ => panic!("expected an integrity error"),
    }
    match HtError::io("c") {
        HtError::Io(m) => assert_eq!(m, "c"),
        _ => panic!("expected an error of the file system"),
    }
}

#[test]
pub fn schema_knows_its_key_columns() {
    let schema = table_schema();
    assert_eq!(schema.leading_key_columns(), 3);
    assert_eq!(schema.find(ColumnId(22)), Some(2));
    assert_eq!(schema.find(ColumnId(23)), None);
    match schema.column(ColumnId(23)) {
        Err(HtError::Misc(msg)) => assert_eq!(msg, "column not found"),
        _ => panic!("expected an error"),
    }
    assert!(schema.columns[0].is_primary_key());
    assert!(!schema.columns[3].is_primary_key());
    assert_eq!(schema.columns[1].duplicate(), schema.columns[1]);
}
