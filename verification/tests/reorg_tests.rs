//! Tests for the reorganization planner and the split boundary.

use chunk_reorg::data::{RecordBatch, SnapshotBatch, Value};
use chunk_reorg::predicate::{DeleteExpr, Op, Predicate, Scalar};
use chunk_reorg::query::QueryableBatch;
use chunk_reorg::reorg::{split_batch, CompareOp, Error, LogicalPlan, ReorgPlanner};
use chunk_reorg::schema::{ColumnDef, ColumnType, Schema, Selection, SortKey, SortKeyEntry};

fn cd(name: &str, column_type: ColumnType, nullable: bool) -> ColumnDef {
    ColumnDef { name: name.to_string(), column_type, nullable }
}

fn tags(values: Vec<Option<&str>>) -> Vec<Option<Value>> {
    values.into_iter().map(|v| v.map(|s| Value::Tag(s.to_string()))).collect()
}

fn ints(values: Vec<i64>) -> Vec<Option<Value>> {
    values.into_iter().map(|v| Some(Value::Int64(v))).collect()
}

fn times(values: Vec<i64>) -> Vec<Option<Value>> {
    values.into_iter().map(|v| Some(Value::Timestamp(v))).collect()
}

fn chunk_of(table: &str, seq: i64, time_values: Vec<i64>) -> QueryableBatch {
    let n_rows = time_values.len();
    let sb = SnapshotBatch {
        min_sequence_number: seq,
        max_sequence_number: seq,
        data: RecordBatch {
            schema: Schema {
                columns: vec![
                    cd("field_int", ColumnType::Int64, true),
                    cd("tag1", ColumnType::Tag, true),
                    cd("time", ColumnType::Timestamp, false),
                ],
                sort_key: None,
            },
            columns: vec![
                ints((0..n_rows as i64).collect()),
                tags(vec![Some("MT"); n_rows]),
                times(time_values),
            ],
            n_rows,
        },
    };
    QueryableBatch::new(table, vec![sb], vec![])
}

fn merged_schema(chunks: &[&QueryableBatch]) -> Schema {
    let schemas: Vec<Schema> =
        chunks.iter().map(|c| c.schema().expect("chunk schema merges")).collect();
    chunk_reorg::merge::merge(&schemas).expect("schemas merge")
}

fn sort_key(entries: Vec<(&str, bool, bool)>) -> SortKey {
    SortKey {
        entries: entries
            .into_iter()
            .map(|(c, descending, nulls_first)| SortKeyEntry {
                column: c.to_string(),
                descending,
                nulls_first,
            })
            .collect(),
    }
}

#[test]
fn single_chunk_scan_plan_shape() {
    let chunk = chunk_of("t", 1, vec![100, 200]);
    let schema = merged_schema(&[&chunk]);
    let plan = ReorgPlanner::new().scan_single_chunk_plan(schema, chunk).expect("plan");
    match plan {
        LogicalPlan::Scan { provider, projection, filters } => {
            assert_eq!(provider.table_name, "t".to_string());
            assert_eq!(provider.chunks.len(), 1);
            assert!(!provider.ensure_pk_sort);
            assert!(projection.is_none());
            assert!(filters.is_empty());
        },
        _ => panic!("expected a scan plan"),
    }
}

#[test]
fn compact_plan_shape() {
    let c1 = chunk_of("t", 1, vec![100, 200]);
    let c2 = chunk_of("t", 2, vec![150, 250]);
    let schema = merged_schema(&[&c1, &c2]);
    let key = sort_key(vec![("tag1", true, true), ("time", false, false)]);
    let (out_schema, plan) =
        ReorgPlanner::new().compact_plan(schema, vec![c1, c2], &key).expect("compact plan");
    // the output schema records the requested sort key
    assert_eq!(out_schema.sort_key, Some(key));
    match plan {
        LogicalPlan::Scan { provider, projection, filters } => {
            assert_eq!(provider.table_name, "t".to_string());
            assert_eq!(provider.chunks.len(), 2);
            // primary-key sort is requested so deduplication sees
            // identical keys contiguously
            assert!(provider.ensure_pk_sort);
            assert!(projection.is_none());
            assert!(filters.is_empty());
        },
        _ => panic!("expected a single scan plan"),
    }
}

#[test]
fn split_plan_shape() {
    let c1 = chunk_of("t", 1, vec![100, 200]);
    let c2 = chunk_of("t", 2, vec![150, 250]);
    let schema = merged_schema(&[&c1, &c2]);
    let key = sort_key(vec![("time", false, false)]);
    let (out_schema, plan) =
        ReorgPlanner::new().split_plan(schema, vec![c1, c2], &key, 1000).expect("split plan");
    assert_eq!(out_schema.sort_key, Some(key));
    match plan {
        LogicalPlan::Split { input, split_expr } => {
            // the boundary is time <= split_time
            assert_eq!(split_expr.column, "time".to_string());
            assert_eq!(split_expr.op, CompareOp::LtEq);
            assert_eq!(split_expr.value, Scalar::I64(1000));
            match *input {
                LogicalPlan::Scan { provider, .. } => {
                    assert!(provider.ensure_pk_sort);
                    assert_eq!(provider.chunks.len(), 2);
                },
                _ => panic!("split must wrap a scan"),
            }
        },
        _ => panic!("expected a split plan"),
    }
}

#[test]
fn cross_table_rejection() {
    // chunks from two different tables fail before any plan is built
    let c1 = chunk_of("t1", 1, vec![100]);
    let c2 = chunk_of("t2", 2, vec![200]);
    let schema = merged_schema(&[&c1, &c2]);
    let key = sort_key(vec![("time", false, false)]);
    let r = ReorgPlanner::new().compact_plan(schema, vec![c1, c2], &key);
    assert!(matches!(r, Err(Error::CreatingProvider { .. })));
}

#[test]
fn compact_plan_needs_chunks() {
    let key = sort_key(vec![("time", false, false)]);
    let r = ReorgPlanner::new().compact_plan(
        Schema { columns: vec![], sort_key: None },
        Vec::<QueryableBatch>::new(),
        &key,
    );
    assert!(matches!(r, Err(Error::EmptyChunkList)));
}

#[test]
fn split_boundary_correctness() {
    // five rows at times {1000, 2000, 2000, 3000, 4000}, split at 2000
    let batch = RecordBatch {
        schema: Schema {
            columns: vec![
                cd("field_int", ColumnType::Int64, true),
                cd("time", ColumnType::Timestamp, false),
            ],
            sort_key: None,
        },
        columns: vec![
            ints(vec![1, 2, 3, 4, 5]),
            times(vec![1000, 2000, 2000, 3000, 4000]),
        ],
        n_rows: 5,
    };
    let (part0, part1) = split_batch(&batch, 2000);
    // partition 0: exactly the three rows with time <= 2000, in order
    assert_eq!(part0.n_rows, 3);
    assert_eq!(part0.columns[0], ints(vec![1, 2, 3]));
    assert_eq!(part0.columns[1], times(vec![1000, 2000, 2000]));
    // partition 1: the two rows with time > 2000, in order
    assert_eq!(part1.n_rows, 2);
    assert_eq!(part1.columns[0], ints(vec![4, 5]));
    assert_eq!(part1.columns[1], times(vec![3000, 4000]));
    // both partitions keep the input schema's columns
    assert_eq!(part0.schema.columns, batch.schema.columns);
    assert_eq!(part1.schema.columns, batch.schema.columns);
}

#[test]
fn query_plan_shape() {
    let batch = chunk_of("test_table", 1, vec![8000, 10000, 20000]);
    let plan = chunk_reorg::querier_handler::query(batch, &Predicate::default(), &Selection::All)
        .expect("plan");
    match plan {
        LogicalPlan::Scan { provider, projection, filters } => {
            assert_eq!(provider.table_name, "test_table".to_string());
            assert!(projection.is_none());
            assert!(filters.is_empty());
            assert!(!provider.ensure_pk_sort);
        },
        _ => panic!("expected a scan plan"),
    }
}

#[test]
fn query_plan_selection_becomes_projection() {
    let batch = chunk_of("test_table", 1, vec![8000, 10000, 20000]);
    let selection = Selection::Columns(vec!["tag1".to_string(), "time".to_string()]);
    let plan =
        chunk_reorg::querier_handler::query(batch, &Predicate::default(), &selection).expect(
            "plan",
        );
    match plan {
        LogicalPlan::Scan { provider, projection, .. } => {
            let idxs = projection.expect("projection present");
            assert_eq!(idxs.len(), 2);
            assert_eq!(provider.schema.columns[idxs[0]].name, "tag1".to_string());
            assert_eq!(provider.schema.columns[idxs[1]].name, "time".to_string());
        },
        _ => panic!("expected a scan plan"),
    }
}

#[test]
fn query_plan_carries_predicate_filters() {
    let batch = chunk_of("test_table", 1, vec![8000]);
    let predicate = Predicate {
        exprs: vec![DeleteExpr {
            column: "field_int".to_string(),
            op: Op::Eq,
            scalar: Scalar::I64(10),
        }],
    };
    let plan = chunk_reorg::querier_handler::query(batch, &predicate, &Selection::All)
        .expect("plan");
    match plan {
        LogicalPlan::Scan { filters, .. } => {
            assert_eq!(filters.len(), 1);
            assert_eq!(filters[0].column, "field_int".to_string());
            assert_eq!(filters[0].op, CompareOp::Eq);
            assert_eq!(filters[0].value, Scalar::I64(10));
        },
        _ => panic!("expected a scan plan"),
    }
}

#[test]
fn query_plan_rejects_missing_column() {
    let batch = chunk_of("test_table", 1, vec![8000]);
    let selection = Selection::Columns(vec!["nope".to_string()]);
    let r = chunk_reorg::querier_handler::query(batch, &Predicate::default(), &selection);
    match r {
        Err(chunk_reorg::querier_handler::Error::SelectColumns { column }) => {
            assert_eq!(column, "nope".to_string());
        },
        _ => panic!("expected a select-columns error"),
    }
}
