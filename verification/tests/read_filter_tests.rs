//! Tests for reading a queryable batch: projection, concatenation and
//! null padding.

use chunk_reorg::data::{RecordBatch, SnapshotBatch, Value};
use chunk_reorg::predicate::Predicate;
use chunk_reorg::provider::QueryChunk;
use chunk_reorg::query::QueryableBatch;
use chunk_reorg::schema::{ColumnDef, ColumnType, Schema, Selection};

fn cd(name: &str, column_type: ColumnType, nullable: bool) -> ColumnDef {
    ColumnDef { name: name.to_string(), column_type, nullable }
}

fn snapshot(seq: i64, schema: Vec<ColumnDef>, columns: Vec<Vec<Option<Value>>>) -> SnapshotBatch {
    let n_rows = columns[0].len();
    SnapshotBatch {
        min_sequence_number: seq,
        max_sequence_number: seq,
        data: RecordBatch {
            schema: Schema { columns: schema, sort_key: None },
            columns,
            n_rows,
        },
    }
}

fn tags(values: Vec<Option<&str>>) -> Vec<Option<Value>> {
    values.into_iter().map(|v| v.map(|s| Value::Tag(s.to_string()))).collect()
}

fn ints(values: Vec<i64>) -> Vec<Option<Value>> {
    values.into_iter().map(|v| Some(Value::Int64(v))).collect()
}

fn times(values: Vec<i64>) -> Vec<Option<Value>> {
    values.into_iter().map(|v| Some(Value::Timestamp(v))).collect()
}

/// One snapshot batch with three rows and columns field_int, tag1, time.
fn one_record_batch() -> QueryableBatch {
    let sb = snapshot(
        1,
        vec![
            cd("field_int", ColumnType::Int64, true),
            cd("tag1", ColumnType::Tag, true),
            cd("time", ColumnType::Timestamp, false),
        ],
        vec![
            ints(vec![1000, 10, 70]),
            tags(vec![Some("WA"), Some("VT"), Some("UT")]),
            times(vec![8000, 10000, 20000]),
        ],
    );
    QueryableBatch::new("test_table", vec![sb], vec![])
}

/// Three snapshot batches with differing columns, in differing orders.
fn many_batches() -> QueryableBatch {
    let b1 = snapshot(
        1,
        vec![
            cd("field_int", ColumnType::Int64, true),
            cd("tag1", ColumnType::Tag, true),
            cd("tag2", ColumnType::Tag, true),
            cd("time", ColumnType::Timestamp, false),
        ],
        vec![
            ints(vec![1000, 10, 70, 100, 5]),
            tags(vec![Some("MT"), Some("MT"), Some("CT"), Some("AL"), Some("MT")]),
            tags(vec![Some("CT"), Some("AL"), Some("CT"), Some("MA"), Some("AL")]),
            times(vec![1000, 7000, 100, 50, 5]),
        ],
    );
    let b2 = snapshot(
        2,
        vec![
            cd("tag1", ColumnType::Tag, true),
            cd("field_int", ColumnType::Int64, true),
            cd("tag2", ColumnType::Tag, true),
            cd("time", ColumnType::Timestamp, false),
        ],
        vec![
            tags(vec![Some("MT"), Some("MT"), Some("CT"), Some("AL"), Some("MT")]),
            ints(vec![1000, 20, 70, 10, 30]),
            tags(vec![Some("CT"), Some("AL"), Some("CT"), Some("MA"), Some("AL")]),
            times(vec![2000, 7000, 500, 50, 5]),
        ],
    );
    let b3 = snapshot(
        3,
        vec![
            cd("field_int", ColumnType::Int64, true),
            cd("tag2", ColumnType::Tag, true),
            cd("time", ColumnType::Timestamp, false),
        ],
        vec![
            ints(vec![1000, 10, 70, 100, 5]),
            tags(vec![Some("CT"), Some("AL"), Some("CT"), Some("MA"), Some("AL")]),
            times(vec![1000, 7000, 100, 50, 5000]),
        ],
    );
    QueryableBatch::new("test_table", vec![b1, b2, b3], vec![])
}

fn col_names(b: &RecordBatch) -> Vec<String> {
    b.schema.columns.iter().map(|c| c.name.clone()).collect()
}

#[test]
fn test_read_filter() {
    let batch = one_record_batch();
    let out = batch.read_filter(&Predicate::default(), &Selection::All).expect("read");
    assert_eq!(col_names(&out), vec!["field_int", "tag1", "time"]);
    assert_eq!(out.n_rows, 3);
    assert_eq!(out.columns[0], ints(vec![1000, 10, 70]));
    assert_eq!(out.columns[1], tags(vec![Some("WA"), Some("VT"), Some("UT")]));
    assert_eq!(out.columns[2], times(vec![8000, 10000, 20000]));
}

#[test]
fn test_read_filter_columns() {
    let batch = one_record_batch();
    let selection = Selection::Columns(vec!["time".to_string(), "field_int".to_string()]);
    let out = batch.read_filter(&Predicate::default(), &selection).expect("read");
    assert_eq!(col_names(&out), vec!["field_int", "time"]);
    assert_eq!(out.n_rows, 3);
    assert_eq!(out.columns[0], ints(vec![1000, 10, 70]));
    assert_eq!(out.columns[1], times(vec![8000, 10000, 20000]));
}

#[test]
fn test_read_filter_not_exist_columns() {
    let batch = one_record_batch();
    let selection = Selection::Columns(vec!["foo".to_string()]);
    let out = batch.read_filter(&Predicate::default(), &selection).expect("read");
    assert_eq!(out.schema.columns.len(), 0);
    assert_eq!(out.n_rows, 0);
}

#[test]
fn test_read_filter_many_batches() {
    let batch = many_batches();
    let out = batch.read_filter(&Predicate::default(), &Selection::All).expect("read");
    assert_eq!(col_names(&out), vec!["field_int", "tag1", "tag2", "time"]);
    assert_eq!(out.n_rows, 15);
    assert_eq!(
        out.columns[0],
        ints(vec![1000, 10, 70, 100, 5, 1000, 20, 70, 10, 30, 1000, 10, 70, 100, 5])
    );
    // the third batch has no tag1; its five rows are padded with nulls
    assert_eq!(
        out.columns[1],
        tags(vec![
            Some("MT"),
            Some("MT"),
            Some("CT"),
            Some("AL"),
            Some("MT"),
            Some("MT"),
            Some("MT"),
            Some("CT"),
            Some("AL"),
            Some("MT"),
            None,
            None,
            None,
            None,
            None,
        ])
    );
    assert_eq!(
        out.columns[3],
        times(vec![1000, 7000, 100, 50, 5, 2000, 7000, 500, 50, 5, 1000, 7000, 100, 50, 5000])
    );
    // tag1 was widened to stay nullable; time stays non-nullable
    assert!(out.schema.columns[1].nullable);
    assert!(!out.schema.columns[3].nullable);
}

#[test]
fn test_read_filter_many_batches_filer_columns() {
    let batch = many_batches();
    let selection = Selection::Columns(vec!["tag1".to_string(), "time".to_string()]);
    let out = batch.read_filter(&Predicate::default(), &selection).expect("read");
    assert_eq!(col_names(&out), vec!["tag1", "time"]);
    assert_eq!(out.n_rows, 15);
    assert_eq!(
        out.columns[1],
        times(vec![1000, 7000, 100, 50, 5, 2000, 7000, 500, 50, 5, 1000, 7000, 100, 50, 5000])
    );
}

#[test]
fn test_read_filter_many_batches_not_exist_columns() {
    let batch = many_batches();
    let selection = Selection::Columns(vec!["foo".to_string(), "bar".to_string()]);
    let out = batch.read_filter(&Predicate::default(), &selection).expect("read");
    assert_eq!(out.schema.columns.len(), 0);
    assert_eq!(out.n_rows, 0);
}

#[test]
fn projection_pads_only_missing_columns() {
    // batch 1 has {a, b, time}; batch 2 has {b, c, time}
    let b1 = snapshot(
        1,
        vec![
            cd("a", ColumnType::Int64, false),
            cd("b", ColumnType::Int64, false),
            cd("time", ColumnType::Timestamp, false),
        ],
        vec![ints(vec![1, 2]), ints(vec![3, 4]), times(vec![10, 20])],
    );
    let b2 = snapshot(
        2,
        vec![
            cd("b", ColumnType::Int64, false),
            cd("c", ColumnType::Int64, false),
            cd("time", ColumnType::Timestamp, false),
        ],
        vec![ints(vec![5, 6]), ints(vec![7, 8]), times(vec![30, 40])],
    );
    let batch = QueryableBatch::new("test_table", vec![b1, b2], vec![]);
    // selecting {b, time}: both columns exist everywhere, so no nulls appear
    let out = batch
        .read_filter(
            &Predicate::default(),
            &Selection::Columns(vec!["b".to_string(), "time".to_string()]),
        )
        .expect("read");
    assert_eq!(col_names(&out), vec!["b", "time"]);
    assert_eq!(out.columns[0], ints(vec![3, 4, 5, 6]));
    assert_eq!(out.columns[1], times(vec![10, 20, 30, 40]));
    assert!(!out.schema.columns[0].nullable);
    // selecting {a, c}: a is null on batch-2 rows, c on batch-1 rows
    let out = batch
        .read_filter(
            &Predicate::default(),
            &Selection::Columns(vec!["a".to_string(), "c".to_string()]),
        )
        .expect("read");
    assert_eq!(col_names(&out), vec!["a", "c"]);
    assert_eq!(
        out.columns[0],
        vec![Some(Value::Int64(1)), Some(Value::Int64(2)), None, None]
    );
    assert_eq!(
        out.columns[1],
        vec![None, None, Some(Value::Int64(7)), Some(Value::Int64(8))]
    );
    assert!(out.schema.columns[0].nullable);
    assert!(out.schema.columns[1].nullable);
}

#[test]
fn read_filter_rejects_conflicting_snapshots() {
    let b1 = snapshot(
        1,
        vec![cd("x", ColumnType::Int64, false)],
        vec![ints(vec![1])],
    );
    let b2 = snapshot(
        2,
        vec![cd("x", ColumnType::Utf8, true)],
        vec![vec![Some(Value::Utf8("one".to_string()))]],
    );
    let batch = QueryableBatch::new("test_table", vec![b1, b2], vec![]);
    assert!(batch.read_filter(&Predicate::default(), &Selection::All).is_err());
}

#[test]
fn min_max_sequence_numbers_come_from_first_snapshot() {
    let sb = snapshot(
        7,
        vec![cd("time", ColumnType::Timestamp, false)],
        vec![times(vec![1])],
    );
    let batch = QueryableBatch::new("test_table", vec![sb], vec![]);
    assert_eq!(batch.min_max_sequence_numbers(), (7, 7));
}

#[test]
fn queryable_batch_reports_chunk_metadata() {
    let batch = one_record_batch();
    assert_eq!(batch.table_name(), "test_table");
    assert!(batch.may_contain_pk_duplicates());
    assert!(!batch.is_sorted_on_pk());
    assert!(batch.sort_key().is_none());
    assert_eq!(batch.id(), 0);
    assert_eq!(batch.chunk_type(), "PersistingBatch");
    assert!(batch.column_names(&Predicate::default(), &Selection::All).is_none());
    assert!(batch.column_values("tag1", &Predicate::default()).is_none());
    assert!(matches!(
        batch.apply_predicate_to_metadata(&Predicate::default()),
        chunk_reorg::query::PredicateMatch::Unknown
    ));
}
