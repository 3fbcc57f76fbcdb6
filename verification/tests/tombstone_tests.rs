use std::cmp::Ordering;
use std::sync::Arc;

use uuid::Uuid;

use hugetable::column::{write_value, ColumnData, ColumnValue};
use hugetable::pk::PkOrder;
use hugetable::row::DetachedRowData;
use hugetable::schema::{ColumnId, ColumnSchema, ColumnType, PrimaryKeySpec, TableSchema};
use hugetable::time::MergeTimestamp;
use hugetable::tombstones::{PartialClusterKey, TombStone, TombStoneFlags};

fn schema() -> Arc<TableSchema> {
    Arc::new(TableSchema::new(
        "events",
        &Uuid::new_v4(),
        vec![
            ColumnSchema {
                col_id: ColumnId(0),
                name: "part".to_string(),
                tpe: ColumnType::BigInt,
                pk_spec: PrimaryKeySpec::PartitionKey,
            },
            ColumnSchema {
                col_id: ColumnId(1),
                name: "seq".to_string(),
                tpe: ColumnType::Int,
                pk_spec: PrimaryKeySpec::ClusterKey(true),
            },
            ColumnSchema {
                col_id: ColumnId(2),
                name: "name".to_string(),
                tpe: ColumnType::Text,
                pk_spec: PrimaryKeySpec::ClusterKey(true),
            },
            ColumnSchema {
                col_id: ColumnId(3),
                name: "flag".to_string(),
                tpe: ColumnType::Boolean,
                pk_spec: PrimaryKeySpec::Regular,
            },
        ],
    ))
}

fn row(schema: &Arc<TableSchema>, part: i64, seq: i32, name: &'static str) -> DetachedRowData {
    let t = MergeTimestamp::from_ticks(50);
    DetachedRowData::assemble(
        schema,
        &vec![
            ColumnData::new(ColumnId(0), t, None, Some(ColumnValue::BigInt(part))),
            ColumnData::new(ColumnId(1), t, None, Some(ColumnValue::Int(seq))),
            ColumnData::new(ColumnId(2), t, None, Some(ColumnValue::Text(name))),
            ColumnData::new(ColumnId(3), t, None, Some(ColumnValue::Boolean(true))),
        ],
    )
}

fn key(values: &[ColumnValue]) -> Vec<u8> {
    let mut buf = Vec::new();
    for v in values {
        write_value(&mut buf, *v);
    }
    buf
}

#[test]
pub fn tombstone_flags_hold_their_bits() {
    let f = TombStoneFlags(1 | 8);
    assert!(f.has_lower_bound());
    assert!(!f.lower_bound_inclusive());
    assert!(!f.has_upper_bound());
    assert!(f.upper_bound_inclusive());
    let f = TombStoneFlags(2 | 4);
    assert!(!f.has_lower_bound());
    assert!(f.lower_bound_inclusive());
    assert!(f.has_upper_bound());
    assert!(!f.upper_bound_inclusive());
}

#[test]
pub fn partial_key_compares_with_the_first_columns_of_a_row() {
    let schema = schema();
    let r = row(&schema, 7, 10, "m");
    let view = r.row_data_view();

    let cases: Vec<(Vec<ColumnValue>, Ordering)> = vec![
        (vec![], Ordering::Equal),
        (vec![ColumnValue::BigInt(7)], Ordering::Equal),
        (vec![ColumnValue::BigInt(6)], Ordering::Less),
        (vec![ColumnValue::BigInt(8)], Ordering::Greater),
        (vec![ColumnValue::BigInt(7), ColumnValue::Int(10)], Ordering::Equal),
        (vec![ColumnValue::BigInt(7), ColumnValue::Int(9)], Ordering::Less),
        (vec![ColumnValue::BigInt(7), ColumnValue::Int(11)], Ordering::Greater),
        (
            vec![ColumnValue::BigInt(7), ColumnValue::Int(10), ColumnValue::Text("m")],
            Ordering::Equal,
        ),
        (
            vec![ColumnValue::BigInt(7), ColumnValue::Int(10), ColumnValue::Text("a")],
            Ordering::Less,
        ),
        (
            vec![ColumnValue::BigInt(7), ColumnValue::Int(10), ColumnValue::Text("ma")],
            Ordering::Greater,
        ),
        (
            vec![ColumnValue::BigInt(6), ColumnValue::Int(99), ColumnValue::Text("z")],
            Ordering::Less,
        ),
    ];
    for (values, expected) in cases {
        let buf = key(&values);
        let k = PartialClusterKey { schema: schema.clone(), buf: &buf };
        assert!(k.validate());
        assert_eq!(k.compare_to(&view), expected);
        let order = match expected {
            Ordering::Less => PkOrder::Less,
            Ordering::Equal => PkOrder::Equal,
            Ordering::Greater => PkOrder::Greater,
        };
        assert_eq!(k.order_to(&view), order);
    }

    // bytes that do not hold a value of the column's type
    let bad = PartialClusterKey { schema: schema.clone(), buf: &[0x80] };
    assert!(!bad.validate());
}

fn tombstone<'a>(
    schema: &Arc<TableSchema>,
    lower: Option<(&'a [u8], bool)>,
    upper: Option<(&'a [u8], bool)>,
) -> TombStone<'a> {
    let mut bits = 0u8;
    if let Some((_, inclusive)) = lower {
        bits |= 1;
        if inclusive {
            bits |= 2;
        }
    }
    if let Some((_, inclusive)) = upper {
        bits |= 4;
        if inclusive {
            bits |= 8;
        }
    }
    TombStone {
        schema: schema.clone(),
        timestamp: MergeTimestamp::from_ticks(100),
        flags: TombStoneFlags(bits),
        lower_bound: lower.map(|(buf, _)| PartialClusterKey { schema: schema.clone(), buf }),
        upper_bound: upper.map(|(buf, _)| PartialClusterKey { schema: schema.clone(), buf }),
    }
}

#[test]
pub fn tombstone_matches_rows_between_its_bounds() {
    let schema = schema();
    let k5 = key(&[ColumnValue::BigInt(7), ColumnValue::Int(5)]);
    let k9 = key(&[ColumnValue::BigInt(7), ColumnValue::Int(9)]);

    let rows: Vec<(i32, DetachedRowData)> =
        (3..12).map(|seq| (seq, row(&schema, 7, seq, "n"))).collect();

    for (lower_inclusive, upper_inclusive) in
        [(true, true), (true, false), (false, true), (false, false)]
    {
        let t = tombstone(&schema, Some((&k5, lower_inclusive)), Some((&k9, upper_inclusive)));
        for (seq, r) in rows.iter() {
            let above = if lower_inclusive { *seq >= 5 } else { *seq > 5 };
            let below = if upper_inclusive { *seq <= 9 } else { *seq < 9 };
            assert_eq!(t.matches(&r.row_data_view()), above && below);
        }
    }

    // open to one side
    let t = tombstone(&schema, Some((&k5, false)), None);
    for (seq, r) in rows.iter() {
        assert_eq!(t.matches(&r.row_data_view()), *seq > 5);
    }
    let t = tombstone(&schema, None, Some((&k9, true)));
    for (seq, r) in rows.iter() {
        assert_eq!(t.matches(&r.row_data_view()), *seq <= 9);
    }
    // no bounds: every row of the partition
    let t = tombstone(&schema, None, None);
    for (_, r) in rows.iter() {
        assert!(t.matches(&r.row_data_view()));
    }
}

#[test]
pub fn tombstone_deletes_columns_written_before_it() {
    let schema = schema();
    let r = row(&schema, 7, 5, "n");
    let k5 = key(&[ColumnValue::BigInt(7), ColumnValue::Int(5)]);
    let k6 = key(&[ColumnValue::BigInt(7), ColumnValue::Int(6)]);
    let t = tombstone(&schema, Some((&k5, true)), None);
    let col = |ticks: u64| {
        ColumnData::new(ColumnId(3), MergeTimestamp::from_ticks(ticks), None, None)
    };
    assert!(t.deletes(&r.row_data_view(), &col(99)));
    assert!(t.deletes(&r.row_data_view(), &col(100)));
    assert!(!t.deletes(&r.row_data_view(), &col(101)));
    let t = tombstone(&schema, Some((&k6, true)), None);
    assert!(!t.deletes(&r.row_data_view(), &col(99)));
}
