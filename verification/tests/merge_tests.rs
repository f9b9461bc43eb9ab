//! Tests for the unified schema merger.

use chunk_reorg::merge::merge;
use chunk_reorg::schema::{ColumnDef, ColumnType, Schema};

fn cd(name: &str, column_type: ColumnType, nullable: bool) -> ColumnDef {
    ColumnDef { name: name.to_string(), column_type, nullable }
}

fn schema_of(cols: Vec<ColumnDef>) -> Schema {
    Schema { columns: cols, sort_key: None }
}

#[test]
fn test_merge_batch_schema() {
    // Batch 1: <dict, int64, string, bool, time>, time non-nullable
    let s1 = schema_of(vec![
        cd("dict", ColumnType::Tag, true),
        cd("int64", ColumnType::Int64, true),
        cd("string", ColumnType::Utf8, true),
        cd("bool", ColumnType::Bool, true),
        cd("time", ColumnType::Timestamp, false),
    ]);
    // Batch 2: <dict, uint64, float64, string, bool, time>, uint64 and time
    // non-nullable
    let s2 = schema_of(vec![
        cd("dict", ColumnType::Tag, true),
        cd("uint64", ColumnType::UInt64, false),
        cd("float64", ColumnType::Float64, true),
        cd("string", ColumnType::Utf8, true),
        cd("bool", ColumnType::Bool, true),
        cd("time", ColumnType::Timestamp, false),
    ]);
    let merged = merge(&vec![s1, s2]).expect("schemas merge");
    // columns come out sorted by name; a column one input lacks is widened
    // to nullable, so int64, uint64 and float64 are all nullable here
    let expected = vec![
        cd("bool", ColumnType::Bool, true),
        cd("dict", ColumnType::Tag, true),
        cd("float64", ColumnType::Float64, true),
        cd("int64", ColumnType::Int64, true),
        cd("string", ColumnType::Utf8, true),
        cd("time", ColumnType::Timestamp, false),
        cd("uint64", ColumnType::UInt64, true),
    ];
    assert_eq!(merged.columns, expected);
    assert!(merged.sort_key.is_none());
}

fn commutativity_inputs() -> (Schema, Schema, Schema) {
    let s1 = schema_of(vec![
        cd("b", ColumnType::Int64, false),
        cd("time", ColumnType::Timestamp, false),
    ]);
    let s2 = schema_of(vec![
        cd("a", ColumnType::Utf8, true),
        cd("time", ColumnType::Timestamp, false),
    ]);
    let s3 = schema_of(vec![cd("c", ColumnType::Tag, true)]);
    (s1, s2, s3)
}

#[test]
fn merge_is_commutative() {
    let (s1, s2, s3) = commutativity_inputs();
    let m1 = merge(&vec![s1, s2, s3]).expect("merge");
    let (s1, s2, s3) = commutativity_inputs();
    let m2 = merge(&vec![s3, s1, s2]).expect("merge");
    assert_eq!(m1.columns, m2.columns);
}

#[test]
fn merge_detects_type_conflict() {
    let s1 = schema_of(vec![cd("col", ColumnType::Int64, false)]);
    let s2 = schema_of(vec![cd("col", ColumnType::Utf8, false)]);
    let conflict = merge(&vec![s1, s2]).expect_err("types clash");
    assert_eq!(conflict.column, "col".to_string());
    assert_ne!(conflict.first_type, conflict.second_type);
}

#[test]
fn merge_reports_time_type_mismatch() {
    let s1 = schema_of(vec![cd("time", ColumnType::Timestamp, false)]);
    let s2 = schema_of(vec![cd("time", ColumnType::Int64, false)]);
    let conflict = merge(&vec![s1, s2]).expect_err("time types clash");
    assert_eq!(conflict.column, "time".to_string());
}

#[test]
fn merge_widens_nullability_for_missing_column() {
    // chunk A has non-nullable x; chunk B lacks x entirely
    let a = schema_of(vec![
        cd("x", ColumnType::Int64, false),
        cd("time", ColumnType::Timestamp, false),
    ]);
    let b = schema_of(vec![cd("time", ColumnType::Timestamp, false)]);
    let merged = merge(&vec![a, b]).expect("merge");
    let x = merged.columns.iter().find(|c| c.name == "x").expect("x kept");
    assert!(x.nullable);
    // time is present and non-nullable everywhere, so it stays non-nullable
    let time = merged.columns.iter().find(|c| c.name == "time").expect("time kept");
    assert!(!time.nullable);
}

#[test]
fn merge_of_no_schemas_is_empty() {
    let merged = merge(&vec![]).expect("empty merge");
    assert!(merged.columns.is_empty());
}
