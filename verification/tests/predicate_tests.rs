//! Tests for tombstone parsing and delete-predicate evaluation.

use chunk_reorg::data::{RecordBatch, Value};
use chunk_reorg::predicate::{
    parse_delete_predicate, row_deleted_by_any, DeleteExpr, DeletePredicate, Op, ParseError,
    Scalar, TimestampRange,
};
use chunk_reorg::provider::QueryChunk;
use chunk_reorg::query::{QueryableBatch, Tombstone};
use chunk_reorg::schema::{ColumnDef, ColumnType, Schema};

fn create_tombstone(
    id: i64,
    table_id: i64,
    seq_id: i64,
    seq_num: i64,
    min: i64,
    max: i64,
    predicate: &str,
) -> Tombstone {
    Tombstone {
        id,
        table_id,
        sequencer_id: seq_id,
        sequence_number: seq_num,
        min_time: min,
        max_time: max,
        serialized_predicate: predicate.to_string(),
    }
}

#[test]
fn test_tombstones_to_delete_predicates() {
    let tombstones = vec![
        create_tombstone(1, 1, 1, 1, 100, 200, "temp=10"),
        create_tombstone(1, 1, 1, 2, 100, 350, "temp!=10 and city=Boston"),
    ];
    let query_batch = QueryableBatch::new("test_table", vec![], tombstones);
    let predicates = query_batch.delete_predicates();
    let expected = vec![
        DeletePredicate {
            range: TimestampRange { start: 100, end: 200 },
            exprs: vec![DeleteExpr {
                column: String::from("temp"),
                op: Op::Eq,
                scalar: Scalar::I64(10),
            }],
        },
        DeletePredicate {
            range: TimestampRange { start: 100, end: 350 },
            exprs: vec![
                DeleteExpr { column: String::from("temp"), op: Op::Ne, scalar: Scalar::I64(10) },
                DeleteExpr {
                    column: String::from("city"),
                    op: Op::Eq,
                    scalar: Scalar::Utf8(String::from("Boston")),
                },
            ],
        },
    ];
    assert_eq!(*predicates, expected);
}

#[test]
fn parse_delete_predicate_round_trip() {
    let p = parse_delete_predicate("100", "200", "temp=10").expect("parses");
    assert_eq!(p.range, TimestampRange { start: 100, end: 200 });
    assert_eq!(p.exprs.len(), 1);
    assert_eq!(p.exprs[0].column, "temp".to_string());
    assert_eq!(p.exprs[0].op, Op::Eq);
    assert_eq!(p.exprs[0].scalar, Scalar::I64(10));
}

#[test]
fn parse_delete_predicate_reads_booleans_and_strings() {
    let p = parse_delete_predicate("-5", "5", "ok=true and city!=Boston").expect("parses");
    assert_eq!(p.range, TimestampRange { start: -5, end: 5 });
    assert_eq!(p.exprs[0].scalar, Scalar::Bool(true));
    assert_eq!(p.exprs[1].op, Op::Ne);
    assert_eq!(p.exprs[1].scalar, Scalar::Utf8("Boston".to_string()));
}

#[test]
fn parse_delete_predicate_rejects_bad_start_time() {
    let r = parse_delete_predicate("abc", "200", "temp=10");
    assert!(matches!(r, Err(ParseError::InvalidStartTime)));
}

#[test]
fn parse_delete_predicate_rejects_bad_stop_time() {
    let r = parse_delete_predicate("100", "20x", "temp=10");
    assert!(matches!(r, Err(ParseError::InvalidStopTime)));
}

#[test]
fn parse_delete_predicate_rejects_reversed_range() {
    let r = parse_delete_predicate("300", "200", "temp=10");
    assert!(matches!(r, Err(ParseError::InvalidTimeRange)));
}

#[test]
fn parse_delete_predicate_rejects_bad_syntax() {
    assert!(matches!(
        parse_delete_predicate("100", "200", "temp="),
        Err(ParseError::InvalidSyntax)
    ));
    assert!(matches!(
        parse_delete_predicate("100", "200", "=10"),
        Err(ParseError::InvalidSyntax)
    ));
    assert!(matches!(
        parse_delete_predicate("100", "200", "temp=1 and"),
        Err(ParseError::InvalidSyntax)
    ));
    assert!(matches!(parse_delete_predicate("100", "200", ""), Err(ParseError::InvalidSyntax)));
}

fn row_batch(temps: Vec<Option<i64>>, cities: Vec<Option<&str>>, times: Vec<i64>) -> RecordBatch {
    let n_rows = times.len();
    let schema = Schema {
        columns: vec![
            ColumnDef { name: "temp".to_string(), column_type: ColumnType::Int64, nullable: true },
            ColumnDef { name: "city".to_string(), column_type: ColumnType::Tag, nullable: true },
            ColumnDef {
                name: "time".to_string(),
                column_type: ColumnType::Timestamp,
                nullable: false,
            },
        ],
        sort_key: None,
    };
    let temp_col: Vec<Option<Value>> = temps.into_iter().map(|t| t.map(Value::Int64)).collect();
    let city_col: Vec<Option<Value>> =
        cities.into_iter().map(|c| c.map(|s| Value::Tag(s.to_string()))).collect();
    let time_col: Vec<Option<Value>> =
        times.into_iter().map(|t| Some(Value::Timestamp(t))).collect();
    RecordBatch { schema, columns: vec![temp_col, city_col, time_col], n_rows }
}

#[test]
fn delete_predicate_excludes_matching_row() {
    // tombstone min=100, max=200, predicate temp=10
    let p = parse_delete_predicate("100", "200", "temp=10").expect("parses");
    let batch = row_batch(
        vec![Some(10), Some(20), Some(10)],
        vec![None, None, None],
        vec![150, 150, 250],
    );
    // time=150, temp=10 is excluded
    assert!(p.row_deleted(&batch, 0));
    // time=150, temp=20 is kept
    assert!(!p.row_deleted(&batch, 1));
    // time=250, temp=10 is outside the range and kept
    assert!(!p.row_deleted(&batch, 2));
}

#[test]
fn compound_delete_predicate() {
    // tombstone min=100, max=350, predicate temp!=10 and city=Boston
    let p = parse_delete_predicate("100", "350", "temp!=10 and city=Boston").expect("parses");
    let batch = row_batch(
        vec![Some(5), Some(10)],
        vec![Some("Boston"), Some("Boston")],
        vec![300, 300],
    );
    // time=300, temp=5, city=Boston is excluded
    assert!(p.row_deleted(&batch, 0));
    // time=300, temp=10, city=Boston fails temp!=10 and is kept
    assert!(!p.row_deleted(&batch, 1));
}

#[test]
fn delete_predicates_combine_with_or() {
    let p1 = parse_delete_predicate("100", "200", "temp=10").expect("parses");
    let p2 = parse_delete_predicate("100", "200", "temp=20").expect("parses");
    let preds = vec![p1, p2];
    let batch = row_batch(
        vec![Some(10), Some(20), Some(30)],
        vec![None, None, None],
        vec![150, 150, 150],
    );
    assert!(row_deleted_by_any(&preds, &batch, 0));
    assert!(row_deleted_by_any(&preds, &batch, 1));
    assert!(!row_deleted_by_any(&preds, &batch, 2));
}

#[test]
fn null_cell_satisfies_no_clause() {
    let p = parse_delete_predicate("100", "200", "temp!=10").expect("parses");
    let batch = row_batch(vec![None], vec![None], vec![150]);
    // a null temp satisfies neither = nor !=, so the row is kept
    assert!(!p.row_deleted(&batch, 0));
}

#[test]
fn parse_i64_text_bounds() {
    assert_eq!(chunk_reorg::text::parse_i64("9223372036854775807"), Some(i64::MAX));
    assert_eq!(chunk_reorg::text::parse_i64("-9223372036854775808"), Some(i64::MIN));
    assert_eq!(chunk_reorg::text::parse_i64("9223372036854775808"), None);
    assert_eq!(chunk_reorg::text::parse_i64(""), None);
    assert_eq!(chunk_reorg::text::parse_i64("-"), None);
    assert_eq!(chunk_reorg::text::parse_i64("12a"), None);
    assert_eq!(chunk_reorg::text::parse_i64("0"), Some(0));
}
