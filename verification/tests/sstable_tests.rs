use std::sync::Arc;

use memmap::{Mmap, MmapMut};
use uuid::Uuid;

use hugetable::column::{ColumnData, ColumnValue};
use hugetable::error::HtError;
use hugetable::row::{DetachedRowData, RowData};
use hugetable::schema::{ColumnId, ColumnSchema, ColumnType, PrimaryKeySpec, TableSchema};
use hugetable::sstable::{find_in, read_entry, serialize, SsTable};
use hugetable::time::{HtClock, ManualClock, MergeTimestamp};

struct SimpleTableTestSetup {
    schema: Arc<TableSchema>,
    clock: ManualClock,
}

impl SimpleTableTestSetup {
    fn new() -> SimpleTableTestSetup {
        SimpleTableTestSetup {
            schema: SimpleTableTestSetup::table_schema(),
            clock: ManualClock::new(MergeTimestamp::from_ticks(12345)),
        }
    }

    fn table_schema() -> Arc<TableSchema> {
        Arc::new(TableSchema::new(
            "test_table",
            &Uuid::new_v4(),
            vec![
                ColumnSchema {
                    col_id: ColumnId(0),
                    name: "pk".to_string(),
                    tpe: ColumnType::BigInt,
                    pk_spec: PrimaryKeySpec::PartitionKey,
                },
                ColumnSchema {
                    col_id: ColumnId(1),
                    name: "text".to_string(),
                    tpe: ColumnType::Text,
                    pk_spec: PrimaryKeySpec::Regular,
                },
                ColumnSchema {
                    col_id: ColumnId(2),
                    name: "int".to_string(),
                    tpe: ColumnType::Int,
                    pk_spec: PrimaryKeySpec::Regular,
                },
            ],
        ))
    }

    fn now(&mut self) -> MergeTimestamp {
        self.clock.now().unwrap()
    }

    fn full_row(&mut self, pk: i64, text: Option<&'static str>, int: Option<i64>) -> DetachedRowData {
        let now = self.now();
        DetachedRowData::assemble(
            &self.schema,
            &vec![
                ColumnData::new(ColumnId(0), now, None, Some(ColumnValue::BigInt(pk))),
                ColumnData::new(ColumnId(1), now, None, text.map(|t| ColumnValue::Text(t))),
                ColumnData::new(ColumnId(2), now, None, int.map(|i| ColumnValue::BigInt(i))),
            ],
        )
    }

    fn pk_row(&mut self, pk: i64) -> DetachedRowData {
        let now = self.now();
        DetachedRowData::assemble(
            &self.schema,
            &vec![ColumnData::new(
                ColumnId(0),
                now,
                None,
                Some(ColumnValue::BigInt(pk)),
            )],
        )
    }

    fn pk(&self, row: &RowData) -> i64 {
        match row.read_col_by_id(ColumnId(0)).unwrap().value.unwrap() {
            ColumnValue::BigInt(v) => v,
            _ => panic!("no pk value"),
        }
    }

    fn value<'a>(&self, row: &'a RowData) -> &'a str {
        match row.read_col_by_id(ColumnId(1)).unwrap().value.unwrap() {
            ColumnValue::Text(v) => v,
            _ => panic!("no value"),
        }
    }
}

fn mapped(bytes: &[u8]) -> Mmap {
    let mut map = MmapMut::map_anon(bytes.len()).unwrap();
    map.copy_from_slice(bytes);
    map.make_read_only().unwrap()
}

fn check(setup: &mut SimpleTableTestSetup, ss_table: &SsTable) {
    let found = ss_table
        .find_by_full_pk(&setup.pk_row(1).row_data_view())
        .unwrap()
        .unwrap();
    assert_eq!(setup.pk(&found), 1);
    assert_eq!(setup.value(&found), "a");

    let found = ss_table
        .find_by_full_pk(&setup.pk_row(3).row_data_view())
        .unwrap()
        .unwrap();
    assert_eq!(setup.pk(&found), 3);
    assert_eq!(setup.value(&found), "b");

    let found = ss_table
        .find_by_full_pk(&setup.pk_row(5).row_data_view())
        .unwrap()
        .unwrap();
    assert_eq!(setup.pk(&found), 5);
    assert_eq!(setup.value(&found), "c");

    let found = ss_table
        .find_by_full_pk(&setup.pk_row(7).row_data_view())
        .unwrap()
        .unwrap();
    assert_eq!(setup.pk(&found), 7);
    assert_eq!(setup.value(&found), "d");

    assert!(ss_table.find_by_full_pk(&setup.pk_row(0).row_data_view()).unwrap().is_none());
    assert!(ss_table.find_by_full_pk(&setup.pk_row(2).row_data_view()).unwrap().is_none());
    assert!(ss_table.find_by_full_pk(&setup.pk_row(4).row_data_view()).unwrap().is_none());
    assert!(ss_table.find_by_full_pk(&setup.pk_row(6).row_data_view()).unwrap().is_none());
    assert!(ss_table.find_by_full_pk(&setup.pk_row(8).row_data_view()).unwrap().is_none());
}

#[test]
pub fn sstable_test_simple() {
    let mut setup = SimpleTableTestSetup::new();

    let rows = vec![
        setup.full_row(1, Some("a"), None),
        setup.full_row(3, Some("b"), None),
        setup.full_row(5, Some("c"), None),
        setup.full_row(7, Some("d"), None),
    ];

    let (index, data) = serialize(&rows);
    let name_base = SsTable::new_name_base(&setup.schema);
    let ss_table = SsTable::from_maps(&setup.schema, mapped(&index), mapped(&data), &name_base);
    check(&mut setup, &ss_table);

    let ss_table = SsTable::from_maps(
        &setup.schema,
        mapped(&index),
        mapped(&data),
        &ss_table.name_base,
    );
    check(&mut setup, &ss_table);
}

#[test]
pub fn serialized_table_has_framed_rows_and_their_offsets() {
    let mut setup = SimpleTableTestSetup::new();
    let rows = vec![
        setup.full_row(1, Some("a"), None),
        setup.full_row(3, Some("bcd"), Some(5)),
    ];
    let (index, data) = serialize(&rows);

    let mut expected_data = Vec::new();
    expected_data.push(rows[0].buf.len() as u8);
    expected_data.extend_from_slice(&rows[0].buf);
    expected_data.push(rows[1].buf.len() as u8);
    expected_data.extend_from_slice(&rows[1].buf);
    assert_eq!(data, expected_data);

    let second = (rows[0].buf.len() + 1) as u8;
    assert_eq!(
        index,
        vec![0, 0, 0, 0, 0, 0, 0, 0, second, 0, 0, 0, 0, 0, 0, 0]
    );

    let (index, data) = serialize(&Vec::new());
    assert!(index.is_empty());
    assert!(data.is_empty());
    let probe = setup.pk_row(1);
    assert!(find_in(&setup.schema, &index, &data, &probe.row_data_view())
        .unwrap()
        .is_none());
}

#[test]
pub fn lookup_returns_the_row_as_it_was_written() {
    let mut setup = SimpleTableTestSetup::new();
    let rows: Vec<DetachedRowData> = (0..50)
        .map(|i| setup.full_row(i * 2 - 20, Some("some text"), Some(i)))
        .collect();
    let (index, data) = serialize(&rows);
    for row in rows.iter() {
        let pk = setup.pk(&row.row_data_view());
        let probe = setup.pk_row(pk);
        let found = find_in(&setup.schema, &index, &data, &probe.row_data_view())
            .unwrap()
            .unwrap();
        assert_eq!(found.buf, &row.buf[..]);
        let probe = setup.pk_row(pk + 1);
        assert!(find_in(&setup.schema, &index, &data, &probe.row_data_view())
            .unwrap()
            .is_none());
    }
    for i in 0..rows.len() {
        assert_eq!(
            read_entry(&setup.schema, &index, &data, i).unwrap().buf,
            &rows[i].buf[..]
        );
    }
}

#[test]
pub fn lookup_reports_a_malformed_table() {
    let mut setup = SimpleTableTestSetup::new();
    let rows = vec![setup.full_row(1, Some("a"), None)];
    let (index, data) = serialize(&rows);
    let probe = setup.pk_row(1);

    // the data file is cut off
    let cut = &data[..data.len() - 1];
    match find_in(&setup.schema, &index, cut, &probe.row_data_view()) {
        Err(HtError::FileIntegrity(_)) => {}
        _ => panic!("expected an integrity error"),
    }
    // the index points behind the data file
    let far = vec![0xff, 0xff, 0, 0, 0, 0, 0, 0];
    match find_in(&setup.schema, &far, &data, &probe.row_data_view()) {
        Err(HtError::FileIntegrity(_)) => {}
        _ => panic!("expected an integrity error"),
    }
    // the row has no key
    let no_key = vec![9, 0, 0, 0, 0, 0, 0, 0, 0, 0];
    match find_in(&setup.schema, &index, &no_key, &probe.row_data_view()) {
        Err(HtError::FileIntegrity(_)) => {}
        _ => panic!("expected an integrity error"),
    }
    assert!(read_entry(&setup.schema, &index, &no_key, 0).is_none());
    // a trailing part of an index entry is not an entry
    let mut longer = index.clone();
    longer.extend_from_slice(&[1, 2, 3]);
    assert!(find_in(&setup.schema, &longer, &data, &probe.row_data_view())
        .unwrap()
        .is_some());
}

#[test]
pub fn name_base_starts_with_the_table_name() {
    let mut setup = SimpleTableTestSetup::new();
    let a = SsTable::new_name_base(&setup.schema);
    let b = SsTable::new_name_base(&setup.schema);
    assert!(a.starts_with("test_table-"));
    assert_eq!(a.len(), "test_table-".len() + 36);
    assert!(Uuid::parse_str(&a["test_table-".len()..]).is_ok());
    assert_ne!(a, b);
}
