use std::path::PathBuf;
use std::sync::Arc;

use uuid::Uuid;

use hugetable::column::{ColumnData, ColumnValue};
use hugetable::config::TableConfig;
use hugetable::error::HtError;
use hugetable::memtable::MemTable;
use hugetable::row::DetachedRowData;
use hugetable::schema::{ColumnId, ColumnSchema, ColumnType, PrimaryKeySpec, TableSchema};
use hugetable::time::{HtClock, ManualClock, MergeTimestamp};

const TEST_DIR: &str = "__test__";

fn test_table_config() -> Arc<TableConfig> {
    Arc::new(TableConfig {
        base_folder: PathBuf::from(TEST_DIR),
    })
}

struct SimpleTableTestSetup {
    schema: Arc<TableSchema>,
    clock: ManualClock,
}

impl SimpleTableTestSetup {
    fn new() -> SimpleTableTestSetup {
        SimpleTableTestSetup {
            schema: SimpleTableTestSetup::table_schema(),
            clock: ManualClock::new(MergeTimestamp::from_ticks(12345)),
        }
    }

    fn table_schema() -> Arc<TableSchema> {
        Arc::new(TableSchema::new(
            "test_table",
            &Uuid::new_v4(),
            vec![
                ColumnSchema {
                    col_id: ColumnId(0),
                    name: "pk".to_string(),
                    tpe: ColumnType::BigInt,
                    pk_spec: PrimaryKeySpec::PartitionKey,
                },
                ColumnSchema {
                    col_id: ColumnId(1),
                    name: "text".to_string(),
                    tpe: ColumnType::Text,
                    pk_spec: PrimaryKeySpec::Regular,
                },
                ColumnSchema {
                    col_id: ColumnId(2),
                    name: "int".to_string(),
                    tpe: ColumnType::Int,
                    pk_spec: PrimaryKeySpec::Regular,
                },
            ],
        ))
    }

    fn now(&mut self) -> MergeTimestamp {
        self.clock.now().unwrap()
    }

    fn full_row(&mut self, pk: i64, text: Option<&'static str>, int: Option<i64>) -> DetachedRowData {
        let now = self.now();
        DetachedRowData::assemble(
            &self.schema,
            &vec![
                ColumnData::new(ColumnId(0), now, None, Some(ColumnValue::BigInt(pk))),
                ColumnData::new(ColumnId(1), now, None, text.map(|t| ColumnValue::Text(t))),
                ColumnData::new(ColumnId(2), now, None, int.map(|i| ColumnValue::BigInt(i))),
            ],
        )
    }

    fn partial_row(&mut self, pk: i64, text: Option<&'static str>) -> DetachedRowData {
        let now = self.now();
        DetachedRowData::assemble(
            &self.schema,
            &vec![
                ColumnData::new(ColumnId(0), now, None, Some(ColumnValue::BigInt(pk))),
                ColumnData::new(ColumnId(1), now, None, text.map(|t| ColumnValue::Text(t))),
            ],
        )
    }

    fn pk_row(&mut self, pk: i64) -> DetachedRowData {
        let now = self.now();
        DetachedRowData::assemble(
            &self.schema,
            &vec![ColumnData::new(
                ColumnId(0),
                now,
                None,
                Some(ColumnValue::BigInt(pk)),
            )],
        )
    }
}

#[test]
pub fn memtable_test_simple() {
    let config = test_table_config();
    let mut setup = SimpleTableTestSetup::new();

    let mut mem_table = MemTable::new(&config, &setup.schema);
    assert_eq!(0, mem_table.size);

    let row = setup.full_row(1, Option::Some("abc"), Option::Some(123));
    mem_table.add(row);
    assert!(mem_table.size > 0);

    let opt_found = mem_table.get(&setup.pk_row(1));
    let found = opt_found.unwrap();
    let data_view = found.row_data_view();
    let data = data_view.read_col_by_id(ColumnId(1)).unwrap();
    assert_eq!(ColumnValue::Text("abc"), data.value.unwrap());
    assert_eq!(
        ColumnValue::Int(123),
        data_view.read_col_by_id(ColumnId(2)).unwrap().value.unwrap()
    );

    // different pk -> not found
    let found = mem_table.get(&setup.pk_row(2));
    assert!(found.is_none());

    // pk row has a different timestamp
    setup.clock.set(MergeTimestamp::from_ticks(0));
    let opt_found = mem_table.get(&setup.pk_row(1));
    let found = opt_found.unwrap();
    let data_view = found.row_data_view();
    assert_eq!(
        ColumnValue::Text("abc"),
        data_view.read_col_by_id(ColumnId(1)).unwrap().value.unwrap()
    );
    assert_eq!(
        ColumnValue::Int(123),
        data_view.read_col_by_id(ColumnId(2)).unwrap().value.unwrap()
    );

    // merge updates
    setup.clock.set(MergeTimestamp::from_ticks(999999));
    mem_table.add(setup.partial_row(1, Option::Some("xyz")));
    let opt_found = mem_table.get(&setup.pk_row(1));
    let found = opt_found.unwrap();
    let data_view = found.row_data_view();
    assert_eq!(
        ColumnValue::Text("xyz"),
        data_view.read_col_by_id(ColumnId(1)).unwrap().value.unwrap()
    );
    assert_eq!(
        ColumnValue::Int(123),
        data_view.read_col_by_id(ColumnId(2)).unwrap().value.unwrap()
    );
}

#[test]
pub fn memtable_keeps_rows_in_key_order_and_counts_bytes() {
    let config = test_table_config();
    let mut setup = SimpleTableTestSetup::new();
    let mut mem_table = MemTable::new(&config, &setup.schema);

    for pk in [5i64, 1, 9, 3, 7, -2] {
        mem_table.add(setup.full_row(pk, Some("t"), Some(pk)));
    }
    let keys: Vec<i64> = mem_table
        .data
        .iter()
        .map(|r| match r.row_data_view().read_col_by_id(ColumnId(0)).unwrap().value {
            Some(ColumnValue::BigInt(v)) => v,
            _ => panic!("no key"),
        })
        .collect();
    assert_eq!(keys, vec![-2, 1, 3, 5, 7, 9]);
    let total: usize = mem_table.data.iter().map(|r| r.buf.len()).sum();
    assert_eq!(mem_table.size, total);

    for pk in [-2i64, 1, 3, 5, 7, 9] {
        assert!(mem_table.get(&setup.pk_row(pk)).is_some());
        let probe = setup.pk_row(pk);
        assert_eq!(mem_table.locate(&probe).1, true);
    }
    for pk in [-3i64, 0, 2, 4, 6, 8, 10] {
        assert!(mem_table.get(&setup.pk_row(pk)).is_none());
    }
    assert_eq!(mem_table.locate(&setup.pk_row(4)), (3, false));
    assert_eq!(mem_table.locate(&setup.pk_row(100)), (6, false));
    assert_eq!(mem_table.locate(&setup.pk_row(-100)), (0, false));

    // a row with a key that is there replaces the row, and the size follows
    setup.clock.set(MergeTimestamp::from_ticks(999999));
    mem_table.add(setup.partial_row(5, Some("a longer text than before")));
    assert_eq!(mem_table.data.len(), 6);
    let total: usize = mem_table.data.iter().map(|r| r.buf.len()).sum();
    assert_eq!(mem_table.size, total);
    let found = mem_table.get(&setup.pk_row(5)).unwrap();
    assert_eq!(
        found.row_data_view().read_col_by_id(ColumnId(1)).unwrap().value,
        Some(ColumnValue::Text("a longer text than before"))
    );
    assert_eq!(
        found.row_data_view().read_col_by_id(ColumnId(2)).unwrap().value,
        Some(ColumnValue::Int(5))
    );
}

#[test]
pub fn try_add_says_why_a_row_is_not_taken() {
    let config = test_table_config();
    let mut setup = SimpleTableTestSetup::new();
    let mut mem_table = MemTable::new(&config, &setup.schema);
    assert!(mem_table.try_add(setup.full_row(1, Some("a"), Some(1))).is_ok());
    assert!(mem_table.try_add(setup.full_row(1, Some("b"), None)).is_ok());
    assert_eq!(mem_table.data.len(), 1);

    // a row without its key
    let no_key = DetachedRowData::assemble(
        &setup.schema,
        &vec![ColumnData::new(ColumnId(1), MergeTimestamp::from_ticks(5), None, Some(ColumnValue::Text("x")))],
    );
    let size = mem_table.size;
    match mem_table.try_add(no_key) {
        Err(HtError::Misc(_)) => {}
        _ => panic!("expected an error"),
    }
    assert_eq!(mem_table.data.len(), 1);
    assert_eq!(mem_table.size, size);
}

#[test]
pub fn merge_keeps_the_later_version_of_each_column() {
    let mut setup = SimpleTableTestSetup::new();
    let t1 = MergeTimestamp::from_ticks(100);
    let t2 = MergeTimestamp::from_ticks(200);
    let a = DetachedRowData::assemble(
        &setup.schema,
        &vec![
            ColumnData::new(ColumnId(0), t1, None, Some(ColumnValue::BigInt(1))),
            ColumnData::new(ColumnId(1), t2, None, Some(ColumnValue::Text("new"))),
        ],
    );
    let b = DetachedRowData::assemble(
        &setup.schema,
        &vec![
            ColumnData::new(ColumnId(0), t1, None, Some(ColumnValue::BigInt(1))),
            ColumnData::new(ColumnId(1), t1, None, Some(ColumnValue::Text("old"))),
            ColumnData::new(ColumnId(2), t1, None, Some(ColumnValue::Int(9))),
        ],
    );
    let expected = vec![
        ColumnData::new(ColumnId(0), t1, None, Some(ColumnValue::BigInt(1))),
        ColumnData::new(ColumnId(1), t2, None, Some(ColumnValue::Text("new"))),
        ColumnData::new(ColumnId(2), t1, None, Some(ColumnValue::Int(9))),
    ];
    let ab = a.row_data_view().merge(&b.row_data_view());
    let ba = b.row_data_view().merge(&a.row_data_view());
    assert_eq!(ab.row_data_view().column_list(), expected);
    assert_eq!(ab.buf, ba.buf);
    assert!(ab.is_keyed());

    // merging is associative
    let c = DetachedRowData::assemble(
        &setup.schema,
        &vec![
            ColumnData::new(ColumnId(0), t1, None, Some(ColumnValue::BigInt(1))),
            ColumnData::new(ColumnId(2), t2, None, None),
        ],
    );
    let ab_c = ab.row_data_view().merge(&c.row_data_view());
    let bc = b.row_data_view().merge(&c.row_data_view());
    let a_bc = a.row_data_view().merge(&bc.row_data_view());
    assert_eq!(ab_c.buf, a_bc.buf);
    assert_eq!(
        ab_c.row_data_view().read_col_by_id(ColumnId(2)).unwrap().value,
        None
    );
}
