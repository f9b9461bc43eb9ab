//! Tests for the system schema tables.

use chunk_reorg::data::Value;
use chunk_reorg::system_tables::{
    from_chunk_summaries, from_partition_summaries, from_task_trackers, Catalog, ChunkStorage,
    ChunkSummary, ColumnSummary, Job, JobRegistry, PartitionSummary, SystemSchemaProvider,
    TableSummary, TaskStatus, TaskTracker,
};

fn utf8(s: &str) -> Option<Value> {
    Some(Value::Utf8(s.to_string()))
}

#[test]
fn test_from_chunk_summaries() {
    let chunks = vec![
        ChunkSummary {
            partition_key: "p1".to_string(),
            table_name: "table1".to_string(),
            id: 0,
            storage: ChunkStorage::OpenMutableBuffer,
            estimated_bytes: 23754,
            time_of_first_write: Some(10_000_000_000),
            time_of_last_write: None,
            time_closing: None,
        },
        ChunkSummary {
            partition_key: "p1".to_string(),
            table_name: "table1".to_string(),
            id: 0,
            storage: ChunkStorage::OpenMutableBuffer,
            estimated_bytes: 23454,
            time_of_first_write: None,
            time_of_last_write: Some(80_000_000_000),
            time_closing: None,
        },
    ];
    let batch = from_chunk_summaries(&chunks);
    let names: Vec<String> = batch.schema.columns.iter().map(|c| c.name.clone()).collect();
    assert_eq!(
        names,
        vec![
            "id",
            "partition_key",
            "table_name",
            "storage",
            "estimated_bytes",
            "time_of_first_write",
            "time_of_last_write",
            "time_closing",
        ]
    );
    assert_eq!(batch.n_rows, 2);
    assert_eq!(batch.columns[0], vec![Some(Value::UInt32(0)), Some(Value::UInt32(0))]);
    assert_eq!(batch.columns[1], vec![utf8("p1"), utf8("p1")]);
    assert_eq!(batch.columns[2], vec![utf8("table1"), utf8("table1")]);
    assert_eq!(batch.columns[3], vec![utf8("OpenMutableBuffer"), utf8("OpenMutableBuffer")]);
    assert_eq!(
        batch.columns[4],
        vec![Some(Value::UInt64(23754)), Some(Value::UInt64(23454))]
    );
    assert_eq!(batch.columns[5], vec![Some(Value::Timestamp(10_000_000_000)), None]);
    assert_eq!(batch.columns[6], vec![None, Some(Value::Timestamp(80_000_000_000))]);
    assert_eq!(batch.columns[7], vec![None, None]);
}

#[test]
fn test_from_partition_summaries() {
    let partitions = vec![
        PartitionSummary {
            key: "p1".to_string(),
            tables: vec![TableSummary {
                name: "t1".to_string(),
                columns: vec![
                    ColumnSummary { name: "c1".to_string(), count: 1 },
                    ColumnSummary { name: "c2".to_string(), count: 1 },
                ],
            }],
        },
        PartitionSummary { key: "p2".to_string(), tables: vec![] },
        PartitionSummary {
            key: "p3".to_string(),
            tables: vec![TableSummary { name: "t1".to_string(), columns: vec![] }],
        },
    ];
    let batch = from_partition_summaries(&partitions);
    // no rows come from partitions without tables or tables without columns
    assert_eq!(batch.n_rows, 2);
    assert_eq!(batch.columns[0], vec![utf8("p1"), utf8("p1")]);
    assert_eq!(batch.columns[1], vec![utf8("t1"), utf8("t1")]);
    assert_eq!(batch.columns[2], vec![utf8("c1"), utf8("c2")]);
    assert_eq!(
        batch.columns[3],
        vec![Some(Value::UInt64(1)), Some(Value::UInt64(1))]
    );
}

#[test]
fn operations_table_reports_task_state() {
    let jobs = vec![
        TaskTracker {
            id: "42".to_string(),
            status: TaskStatus::Creating,
            metadata: Job {
                db_name: Some("db".to_string()),
                partition_key: None,
                chunk_id: Some(7),
                description: "compacting".to_string(),
            },
        },
        TaskTracker {
            id: "43".to_string(),
            status: TaskStatus::Complete { cpu_nanos: 1500 },
            metadata: Job {
                db_name: None,
                partition_key: Some("p1".to_string()),
                chunk_id: None,
                description: "persisting".to_string(),
            },
        },
    ];
    let batch = from_task_trackers(&jobs);
    assert_eq!(batch.n_rows, 2);
    assert_eq!(batch.columns[0], vec![utf8("42"), utf8("43")]);
    assert_eq!(batch.columns[1], vec![None, Some(Value::Time64(1500))]);
    assert_eq!(batch.columns[2], vec![utf8("db"), None]);
    assert_eq!(batch.columns[3], vec![None, utf8("p1")]);
    assert_eq!(batch.columns[4], vec![Some(Value::UInt32(7)), None]);
    assert_eq!(batch.columns[5], vec![utf8("compacting"), utf8("persisting")]);
}

#[test]
fn system_schema_serves_three_tables() {
    let provider = SystemSchemaProvider::new(
        Catalog { chunks: vec![], partitions: vec![] },
        JobRegistry { jobs: vec![] },
    );
    let names: Vec<String> = provider.table_names();
    assert_eq!(names, vec!["chunks", "columns", "operations"]);
    assert!(provider.table("chunks").is_some());
    assert!(provider.table("columns").is_some());
    assert!(provider.table("operations").is_some());
    assert!(provider.table("nope").is_none());
}
