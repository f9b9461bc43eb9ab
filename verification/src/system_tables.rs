//! The system schema: in-memory tables describing chunks, columns and
//! running operations, materialized as record batches on request.

use vstd::prelude::*;
use crate::data::{cell_ok, RecordBatch, Value};
use crate::schema::{ColumnDef, ColumnType, Schema};

verus! {

/// Where a chunk's data currently lives.
#[derive(Clone, Copy, Debug, PartialEq, Eq, Structural)]
pub enum ChunkStorage {
    OpenMutableBuffer,
    ClosedMutableBuffer,
    ReadBuffer,
    ReadBufferAndObjectStore,
    ObjectStoreOnly,
}

pub open spec fn storage_name(s: ChunkStorage) -> Seq<char> {
    match s {
        ChunkStorage::OpenMutableBuffer => "OpenMutableBuffer"@,
        ChunkStorage::ClosedMutableBuffer => "ClosedMutableBuffer"@,
        ChunkStorage::ReadBuffer => "ReadBuffer"@,
        ChunkStorage::ReadBufferAndObjectStore => "ReadBufferAndObjectStore"@,
        ChunkStorage::ObjectStoreOnly => "ObjectStoreOnly"@,
    }
}

impl ChunkStorage {
    /// The storage tier's display name.
    pub fn as_str(&self) -> (r: &'static str)
        ensures
            r@ == storage_name(*self),
    {
        match self {
            ChunkStorage::OpenMutableBuffer => "OpenMutableBuffer",
            ChunkStorage::ClosedMutableBuffer => "ClosedMutableBuffer",
            ChunkStorage::ReadBuffer => "ReadBuffer",
            ChunkStorage::ReadBufferAndObjectStore => "ReadBufferAndObjectStore",
            ChunkStorage::ObjectStoreOnly => "ObjectStoreOnly",
        }
    }
}

/// Metadata of one chunk; write and closing times are nanosecond
/// timestamps when known.
pub struct ChunkSummary {
    pub partition_key: String,
    pub table_name: String,
    pub id: u32,
    pub storage: ChunkStorage,
    pub estimated_bytes: u64,
    pub time_of_first_write: Option<i64>,
    pub time_of_last_write: Option<i64>,
    pub time_closing: Option<i64>,
}

/// Count of values written to one column of one table.
pub struct ColumnSummary {
    pub name: String,
    pub count: u64,
}

/// The column summaries of one table.
pub struct TableSummary {
    pub name: String,
    pub columns: Vec<ColumnSummary>,
}

/// The table summaries of one partition.
pub struct PartitionSummary {
    pub key: String,
    pub tables: Vec<TableSummary>,
}

/// State of a background task.
pub enum TaskStatus {
    Creating,
    Running { cpu_nanos: u64 },
    Complete { cpu_nanos: u64 },
}

/// Metadata of one background job.
pub struct Job {
    pub db_name: Option<String>,
    pub partition_key: Option<String>,
    pub chunk_id: Option<u32>,
    pub description: String,
}

/// One followed task: its identifier, status and job metadata.
pub struct TaskTracker {
    pub id: String,
    pub status: TaskStatus,
    pub metadata: Job,
}

/// An optional string cell.
pub open spec fn utf8_cell(v: Option<String>) -> Option<Value> {
    match v {
        Some(s) => Some(Value::Utf8(s)),
        None => None,
    }
}

/// An optional timestamp cell.
pub open spec fn time_cell(v: Option<i64>) -> Option<Value> {
    match v {
        Some(t) => Some(Value::Timestamp(t)),
        None => None,
    }
}

/// The schema and contents of the chunks system table: one row per chunk
/// summary, in input order.
pub open spec fn chunks_batch_ok(b: RecordBatch, chunks: Seq<ChunkSummary>) -> bool {
    &&& b.wf()
    &&& b.n_rows == chunks.len()
    &&& b.schema.columns@.len() == 8
    &&& b.schema.columns@[0] == (ColumnDef {
        name: b.schema.columns@[0].name,
        column_type: ColumnType::UInt32,
        nullable: false,
    }) && b.schema.columns@[0].name@ == "id"@
    &&& b.schema.columns@[1].name@ == "partition_key"@ && b.schema.columns@[1].column_type
        == ColumnType::Utf8 && !b.schema.columns@[1].nullable
    &&& b.schema.columns@[2].name@ == "table_name"@ && b.schema.columns@[2].column_type
        == ColumnType::Utf8 && !b.schema.columns@[2].nullable
    &&& b.schema.columns@[3].name@ == "storage"@ && b.schema.columns@[3].column_type
        == ColumnType::Utf8 && !b.schema.columns@[3].nullable
    &&& b.schema.columns@[4].name@ == "estimated_bytes"@ && b.schema.columns@[4].column_type
        == ColumnType::UInt64 && b.schema.columns@[4].nullable
    &&& b.schema.columns@[5].name@ == "time_of_first_write"@ && b.schema.columns@[5].column_type
        == ColumnType::Timestamp && b.schema.columns@[5].nullable
    &&& b.schema.columns@[6].name@ == "time_of_last_write"@ && b.schema.columns@[6].column_type
        == ColumnType::Timestamp && b.schema.columns@[6].nullable
    &&& b.schema.columns@[7].name@ == "time_closing"@ && b.schema.columns@[7].column_type
        == ColumnType::Timestamp && b.schema.columns@[7].nullable
    &&& forall|r: int|
        0 <= r < chunks.len() ==> {
            let c = #[trigger] chunks[r];
            &&& b.columns@[0]@[r] matches Some(v) && v == Value::UInt32(c.id)
            &&& b.columns@[1]@[r] matches Some(v) && v == Value::Utf8(c.partition_key)
            &&& b.columns@[2]@[r] matches Some(v) && v == Value::Utf8(c.table_name)
            &&& (b.columns@[3]@[r] matches Some(v) && v matches Value::Utf8(s) && s@
                == storage_name(c.storage))
            &&& b.columns@[4]@[r] matches Some(v) && v == Value::UInt64(c.estimated_bytes)
            &&& b.columns@[5]@[r] == time_cell(c.time_of_first_write)
            &&& b.columns@[6]@[r] == time_cell(c.time_of_last_write)
            &&& b.columns@[7]@[r] == time_cell(c.time_closing)
        }
}

/// Builds the chunks system table from chunk summaries.
pub fn from_chunk_summaries(chunks: &Vec<ChunkSummary>) -> (r: RecordBatch)
    ensures
        chunks_batch_ok(r, chunks@),
{
    let mut id: Vec<Option<Value>> = Vec::new();
    let mut partition_key: Vec<Option<Value>> = Vec::new();
    let mut table_name: Vec<Option<Value>> = Vec::new();
    let mut storage: Vec<Option<Value>> = Vec::new();
    let mut estimated_bytes: Vec<Option<Value>> = Vec::new();
    let mut time_of_first_write: Vec<Option<Value>> = Vec::new();
    let mut time_of_last_write: Vec<Option<Value>> = Vec::new();
    let mut time_closing: Vec<Option<Value>> = Vec::new();
    let mut i: usize = 0;
    while i < chunks.len()
        invariant
            i <= chunks@.len(),
            id@.len() == i,
            partition_key@.len() == i,
            table_name@.len() == i,
            storage@.len() == i,
            estimated_bytes@.len() == i,
            time_of_first_write@.len() == i,
            time_of_last_write@.len() == i,
            time_closing@.len() == i,
            forall|r: int|
                0 <= r < i ==> {
                    let c = #[trigger] chunks@[r];
                    &&& id@[r] == Some(Value::UInt32(c.id))
                    &&& partition_key@[r] == Some(Value::Utf8(c.partition_key))
                    &&& table_name@[r] == Some(Value::Utf8(c.table_name))
                    &&& (storage@[r] matches Some(v) && v matches Value::Utf8(s) && s@
                        == storage_name(c.storage))
                    &&& estimated_bytes@[r] == Some(Value::UInt64(c.estimated_bytes))
                    &&& time_of_first_write@[r] == time_cell(c.time_of_first_write)
                    &&& time_of_last_write@[r] == time_cell(c.time_of_last_write)
                    &&& time_closing@[r] == time_cell(c.time_closing)
                },
        decreases chunks@.len() - i,
    {
        let c = &chunks[i];
        id.push(Some(Value::UInt32(c.id)));
        partition_key.push(Some(Value::Utf8(c.partition_key.clone())));
        table_name.push(Some(Value::Utf8(c.table_name.clone())));
        storage.push(Some(Value::Utf8(c.storage.as_str().to_owned())));
        estimated_bytes.push(Some(Value::UInt64(c.estimated_bytes)));
        time_of_first_write.push(
            match c.time_of_first_write {
                Some(t) => Some(Value::Timestamp(t)),
                None => None,
            },
        );
        time_of_last_write.push(
            match c.time_of_last_write {
                Some(t) => Some(Value::Timestamp(t)),
                None => None,
            },
        );
        time_closing.push(
            match c.time_closing {
                Some(t) => Some(Value::Timestamp(t)),
                None => None,
            },
        );
        i = i + 1;
    }
    let mut defs: Vec<ColumnDef> = Vec::new();
    defs.push(ColumnDef { name: "id".to_owned(), column_type: ColumnType::UInt32, nullable: false });
    defs.push(
        ColumnDef {
            name: "partition_key".to_owned(),
            column_type: ColumnType::Utf8,
            nullable: false,
        },
    );
    defs.push(
        ColumnDef { name: "table_name".to_owned(), column_type: ColumnType::Utf8, nullable: false },
    );
    defs.push(
        ColumnDef { name: "storage".to_owned(), column_type: ColumnType::Utf8, nullable: false },
    );
    defs.push(
        ColumnDef {
            name: "estimated_bytes".to_owned(),
            column_type: ColumnType::UInt64,
            nullable: true,
        },
    );
    defs.push(
        ColumnDef {
            name: "time_of_first_write".to_owned(),
            column_type: ColumnType::Timestamp,
            nullable: true,
        },
    );
    defs.push(
        ColumnDef {
            name: "time_of_last_write".to_owned(),
            column_type: ColumnType::Timestamp,
            nullable: true,
        },
    );
    defs.push(
        ColumnDef {
            name: "time_closing".to_owned(),
            column_type: ColumnType::Timestamp,
            nullable: true,
        },
    );
    let ghost g: Seq<Seq<Option<Value>>> = seq![
        id@,
        partition_key@,
        table_name@,
        storage@,
        estimated_bytes@,
        time_of_first_write@,
        time_of_last_write@,
        time_closing@,
    ];
    let mut cols: Vec<Vec<Option<Value>>> = Vec::new();
    cols.push(id);
    cols.push(partition_key);
    cols.push(table_name);
    cols.push(storage);
    cols.push(estimated_bytes);
    cols.push(time_of_first_write);
    cols.push(time_of_last_write);
    cols.push(time_closing);
    let b = RecordBatch {
        schema: Schema { columns: defs, sort_key: None },
        columns: cols,
        n_rows: chunks.len(),
    };
    proof {
        reveal_strlit("id");
        reveal_strlit("partition_key");
        reveal_strlit("table_name");
        reveal_strlit("storage");
        reveal_strlit("estimated_bytes");
        reveal_strlit("time_of_first_write");
        reveal_strlit("time_of_last_write");
        reveal_strlit("time_closing");
        assert(b.schema.columns@.len() == 8);
        assert(b.columns@.len() == 8);
        assert(b.schema.columns@[0].name@ == "id"@);
        assert(b.schema.columns@[1].name@ == "partition_key"@);
        assert(b.schema.columns@[2].name@ == "table_name"@);
        assert(b.schema.columns@[3].name@ == "storage"@);
        assert(b.schema.columns@[4].name@ == "estimated_bytes"@);
        assert(b.schema.columns@[5].name@ == "time_of_first_write"@);
        assert(b.schema.columns@[6].name@ == "time_of_last_write"@);
        assert(b.schema.columns@[7].name@ == "time_closing"@);
        assert(b.schema.wf()) by {
            assert forall|x: int, y: int| 0 <= x < y < 8 implies b.schema.columns@[x].name@
                != b.schema.columns@[y].name@ by {
                assert(b.schema.columns@[x].name@.len() != b.schema.columns@[y].name@.len());
            }
        }
        assert(forall|x: int| 0 <= x < 8 ==> b.columns@[x]@ == #[trigger] g[x]);
        assert(b.columns@[0]@ == g[0] && b.columns@[1]@ == g[1] && b.columns@[2]@ == g[2]
            && b.columns@[3]@ == g[3] && b.columns@[4]@ == g[4] && b.columns@[5]@ == g[5]
            && b.columns@[6]@ == g[6] && b.columns@[7]@ == g[7]);
        assert forall|x: int, r: int|
            0 <= x < b.columns@.len() && 0 <= r < b.n_rows implies cell_ok(
            #[trigger] b.columns@[x]@[r],
            b.schema.columns@[x],
        ) by {
            assert(0 <= r < chunks@.len());
            let c = chunks@[r];
            if x == 0 {
                assert(b.columns@[x]@[r] == Some(Value::UInt32(c.id)));
            } else if x == 1 {
                assert(b.columns@[x]@[r] == Some(Value::Utf8(c.partition_key)));
            } else if x == 2 {
                assert(b.columns@[x]@[r] == Some(Value::Utf8(c.table_name)));
            } else if x == 3 {
                assert(b.columns@[x]@[r] matches Some(v) && v matches Value::Utf8(s2));
            } else if x == 4 {
                assert(b.columns@[x]@[r] == Some(Value::UInt64(c.estimated_bytes)));
            } else if x == 5 {
                assert(b.columns@[x]@[r] == time_cell(c.time_of_first_write));
            } else if x == 6 {
                assert(b.columns@[x]@[r] == time_cell(c.time_of_last_write));
            } else {
                assert(b.columns@[x]@[r] == time_cell(c.time_closing));
            }
        }
        assert(b.wf());
    }
    b
}

/// One row of the columns system table: partition key, table name, column
/// name and value count.
pub open spec fn table_rows(pkey: Seq<char>, t: TableSummary) -> Seq<
    (Seq<char>, Seq<char>, Seq<char>, u64),
> {
    t.columns@.map_values(|c: ColumnSummary| (pkey, t.name@, c.name@, c.count))
}

pub open spec fn tables_rows(pkey: Seq<char>, ts: Seq<TableSummary>) -> Seq<
    (Seq<char>, Seq<char>, Seq<char>, u64),
>
    decreases ts.len(),
{
    if ts.len() == 0 {
        Seq::empty()
    } else {
        tables_rows(pkey, ts.drop_last()) + table_rows(pkey, ts.last())
    }
}

/// Every (partition, table, column) triple, flattened in input order. No
/// rows come from partitions without tables or tables without columns.
pub open spec fn partition_rows(ps: Seq<PartitionSummary>) -> Seq<
    (Seq<char>, Seq<char>, Seq<char>, u64),
>
    decreases ps.len(),
{
    if ps.len() == 0 {
        Seq::empty()
    } else {
        partition_rows(ps.drop_last()) + tables_rows(ps.last().key@, ps.last().tables@)
    }
}

/// Whether four cells carry one (partition, table, column, count) row.
pub open spec fn column_row_ok(
    pk: Option<Value>,
    tn: Option<Value>,
    cn: Option<Value>,
    ct: Option<Value>,
    row: (Seq<char>, Seq<char>, Seq<char>, u64),
) -> bool {
    &&& (pk matches Some(v0) && v0 matches Value::Utf8(s0) && s0@ == row.0)
    &&& (tn matches Some(v1) && v1 matches Value::Utf8(s1) && s1@ == row.1)
    &&& (cn matches Some(v2) && v2 matches Value::Utf8(s2) && s2@ == row.2)
    &&& ct == Some(Value::UInt64(row.3))
}

/// The schema and contents of the columns system table.
pub open spec fn columns_batch_ok(b: RecordBatch, ps: Seq<PartitionSummary>) -> bool {
    &&& b.wf()
    &&& b.n_rows == partition_rows(ps).len()
    &&& b.schema.columns@.len() == 4
    &&& b.schema.columns@[0].name@ == "partition_key"@ && b.schema.columns@[0].column_type
        == ColumnType::Utf8 && !b.schema.columns@[0].nullable
    &&& b.schema.columns@[1].name@ == "table_name"@ && b.schema.columns@[1].column_type
        == ColumnType::Utf8 && b.schema.columns@[1].nullable
    &&& b.schema.columns@[2].name@ == "column_name"@ && b.schema.columns@[2].column_type
        == ColumnType::Utf8 && b.schema.columns@[2].nullable
    &&& b.schema.columns@[3].name@ == "count"@ && b.schema.columns@[3].column_type
        == ColumnType::UInt64 && b.schema.columns@[3].nullable
    &&& forall|r: int|
        0 <= r < b.n_rows ==> column_row_ok(
            b.columns@[0]@[r],
            b.columns@[1]@[r],
            b.columns@[2]@[r],
            b.columns@[3]@[r],
            #[trigger] partition_rows(ps)[r],
        )
}

/// Builds the columns system table: one row per column of each table of
/// each partition.
pub fn from_partition_summaries(partitions: &Vec<PartitionSummary>) -> (r: RecordBatch)
    ensures
        columns_batch_ok(r, partitions@),
{
    let mut partition_key: Vec<Option<Value>> = Vec::new();
    let mut table_name: Vec<Option<Value>> = Vec::new();
    let mut column_name: Vec<Option<Value>> = Vec::new();
    let mut count: Vec<Option<Value>> = Vec::new();
    let ghost mut rows: Seq<(Seq<char>, Seq<char>, Seq<char>, u64)> = Seq::empty();
    let mut i: usize = 0;
    proof {
        assert(partitions@.take(0) =~= Seq::<PartitionSummary>::empty());
    }
    while i < partitions.len()
        invariant
            i <= partitions@.len(),
            rows == partition_rows(partitions@.take(i as int)),
            partition_key@.len() == rows.len(),
            table_name@.len() == rows.len(),
            column_name@.len() == rows.len(),
            count@.len() == rows.len(),
            forall|r: int|
                0 <= r < rows.len() ==> column_row_ok(
                    partition_key@[r],
                    table_name@[r],
                    column_name@[r],
                    count@[r],
                    #[trigger] rows[r],
                ),
        decreases partitions@.len() - i,
    {
        let p = &partitions[i];
        let ghost pkey = p.key@;
        let ghost rows_before_p = rows;
        let mut j: usize = 0;
        proof {
            assert(p.tables@.take(0) =~= Seq::<TableSummary>::empty());
            assert(rows =~= rows_before_p + tables_rows(pkey, p.tables@.take(0)));
        }
        while j < p.tables.len()
            invariant
                j <= p.tables@.len(),
                i < partitions@.len(),
                p == &partitions@[i as int],
                pkey == p.key@,
                rows == rows_before_p + tables_rows(pkey, p.tables@.take(j as int)),
                partition_key@.len() == rows.len(),
                table_name@.len() == rows.len(),
                column_name@.len() == rows.len(),
                count@.len() == rows.len(),
                forall|r: int|
                    0 <= r < rows.len() ==> column_row_ok(
                        partition_key@[r],
                        table_name@[r],
                        column_name@[r],
                        count@[r],
                        #[trigger] rows[r],
                    ),
            decreases p.tables@.len() - j,
        {
            let t = &p.tables[j];
            let ghost tname = t.name@;
            let ghost rows_before_t = rows;
            let mut k: usize = 0;
            proof {
                assert(t.columns@.take(0).map_values(
                    |c: ColumnSummary| (pkey, tname, c.name@, c.count),
                ) =~= Seq::<(Seq<char>, Seq<char>, Seq<char>, u64)>::empty());
                assert(rows =~= rows_before_t + t.columns@.take(0).map_values(
                    |c: ColumnSummary| (pkey, tname, c.name@, c.count),
                ));
            }
            while k < t.columns.len()
                invariant
                    k <= t.columns@.len(),
                    i < partitions@.len(),
                    j < p.tables@.len(),
                    p == &partitions@[i as int],
                    t == &p.tables@[j as int],
                    pkey == p.key@,
                    tname == t.name@,
                    rows == rows_before_t + t.columns@.take(k as int).map_values(
                        |c: ColumnSummary| (pkey, tname, c.name@, c.count),
                    ),
                    partition_key@.len() == rows.len(),
                    table_name@.len() == rows.len(),
                    column_name@.len() == rows.len(),
                    count@.len() == rows.len(),
                    forall|r: int|
                        0 <= r < rows.len() ==> column_row_ok(
                            partition_key@[r],
                            table_name@[r],
                            column_name@[r],
                            count@[r],
                            #[trigger] rows[r],
                        ),
                decreases t.columns@.len() - k,
            {
                let c = &t.columns[k];
                partition_key.push(Some(Value::Utf8(p.key.clone())));
                table_name.push(Some(Value::Utf8(t.name.clone())));
                column_name.push(Some(Value::Utf8(c.name.clone())));
                count.push(Some(Value::UInt64(c.count)));
                proof {
                    rows = rows.push((pkey, tname, c.name@, c.count));
                    assert(t.columns@.take(k + 1).map_values(
                        |c2: ColumnSummary| (pkey, tname, c2.name@, c2.count),
                    ) =~= t.columns@.take(k as int).map_values(
                        |c2: ColumnSummary| (pkey, tname, c2.name@, c2.count),
                    ).push((pkey, tname, c.name@, c.count)));
                    assert(rows =~= rows_before_t + t.columns@.take(k + 1).map_values(
                        |c2: ColumnSummary| (pkey, tname, c2.name@, c2.count),
                    ));
                }
                k = k + 1;
            }
            proof {
                assert(t.columns@.take(t.columns@.len() as int) =~= t.columns@);
                assert(table_rows(pkey, *t) == t.columns@.map_values(
                    |c2: ColumnSummary| (pkey, tname, c2.name@, c2.count),
                ));
                assert(p.tables@.take(j + 1).drop_last() =~= p.tables@.take(j as int));
                assert(p.tables@.take(j + 1).last() == p.tables@[j as int]);
                assert(tables_rows(pkey, p.tables@.take(j + 1)) == tables_rows(
                    pkey,
                    p.tables@.take(j as int),
                ) + table_rows(pkey, p.tables@[j as int]));
                assert(rows =~= rows_before_p + tables_rows(pkey, p.tables@.take(j + 1)));
            }
            j = j + 1;
        }
        proof {
            assert(p.tables@.take(p.tables@.len() as int) =~= p.tables@);
            assert(partitions@.take(i + 1).drop_last() =~= partitions@.take(i as int));
            assert(partitions@.take(i + 1).last() == partitions@[i as int]);
            assert(rows =~= partition_rows(partitions@.take(i + 1)));
        }
        i = i + 1;
    }
    proof {
        assert(partitions@.take(partitions@.len() as int) =~= partitions@);
    }
    let n_rows = partition_key.len();
    let mut defs: Vec<ColumnDef> = Vec::new();
    defs.push(
        ColumnDef {
            name: "partition_key".to_owned(),
            column_type: ColumnType::Utf8,
            nullable: false,
        },
    );
    defs.push(
        ColumnDef { name: "table_name".to_owned(), column_type: ColumnType::Utf8, nullable: true },
    );
    defs.push(
        ColumnDef { name: "column_name".to_owned(), column_type: ColumnType::Utf8, nullable: true },
    );
    defs.push(
        ColumnDef { name: "count".to_owned(), column_type: ColumnType::UInt64, nullable: true },
    );
    let ghost g: Seq<Seq<Option<Value>>> = seq![
        partition_key@,
        table_name@,
        column_name@,
        count@,
    ];
    let mut cols: Vec<Vec<Option<Value>>> = Vec::new();
    cols.push(partition_key);
    cols.push(table_name);
    cols.push(column_name);
    cols.push(count);
    let b = RecordBatch { schema: Schema { columns: defs, sort_key: None }, columns: cols, n_rows };
    proof {
        reveal_strlit("partition_key");
        reveal_strlit("table_name");
        reveal_strlit("column_name");
        reveal_strlit("count");
        assert(b.schema.columns@.len() == 4);
        assert(b.columns@.len() == 4);
        assert(b.schema.columns@[0].name@ == "partition_key"@);
        assert(b.schema.columns@[1].name@ == "table_name"@);
        assert(b.schema.columns@[2].name@ == "column_name"@);
        assert(b.schema.columns@[3].name@ == "count"@);
        assert(b.schema.wf()) by {
            assert forall|x: int, y: int| 0 <= x < y < 4 implies b.schema.columns@[x].name@
                != b.schema.columns@[y].name@ by {
                assert(b.schema.columns@[x].name@.len() != b.schema.columns@[y].name@.len());
            }
        }
        assert(b.columns@[0]@ == g[0] && b.columns@[1]@ == g[1] && b.columns@[2]@ == g[2]
            && b.columns@[3]@ == g[3]);
        assert forall|x: int, r: int|
            0 <= x < b.columns@.len() && 0 <= r < b.n_rows implies cell_ok(
            #[trigger] b.columns@[x]@[r],
            b.schema.columns@[x],
        ) by {
            assert(column_row_ok(g[0][r], g[1][r], g[2][r], g[3][r], rows[r]));
            if x == 0 {
                assert(b.columns@[x]@[r] == g[0][r]);
            } else if x == 1 {
                assert(b.columns@[x]@[r] == g[1][r]);
            } else if x == 2 {
                assert(b.columns@[x]@[r] == g[2][r]);
            } else {
                assert(b.columns@[x]@[r] == g[3][r]);
            }
        }
        assert(b.wf());
    }
    b
}

/// The schema and contents of the operations system table: one row per
/// tracked task.
pub open spec fn operations_batch_ok(b: RecordBatch, jobs: Seq<TaskTracker>) -> bool {
    &&& b.wf()
    &&& b.n_rows == jobs.len()
    &&& b.schema.columns@.len() == 6
    &&& b.schema.columns@[0].name@ == "id"@ && b.schema.columns@[0].column_type == ColumnType::Utf8
        && !b.schema.columns@[0].nullable
    &&& b.schema.columns@[1].name@ == "cpu_time_used"@ && b.schema.columns@[1].column_type
        == ColumnType::Time64 && b.schema.columns@[1].nullable
    &&& b.schema.columns@[2].name@ == "db_name"@ && b.schema.columns@[2].column_type
        == ColumnType::Utf8 && b.schema.columns@[2].nullable
    &&& b.schema.columns@[3].name@ == "partition_key"@ && b.schema.columns@[3].column_type
        == ColumnType::Utf8 && b.schema.columns@[3].nullable
    &&& b.schema.columns@[4].name@ == "chunk_id"@ && b.schema.columns@[4].column_type
        == ColumnType::UInt32 && b.schema.columns@[4].nullable
    &&& b.schema.columns@[5].name@ == "description"@ && b.schema.columns@[5].column_type
        == ColumnType::Utf8 && b.schema.columns@[5].nullable
    &&& forall|r: int|
        0 <= r < jobs.len() ==> {
            let t = #[trigger] jobs[r];
            &&& b.columns@[0]@[r] == Some(Value::Utf8(t.id))
            &&& b.columns@[1]@[r] == (match t.status {
                TaskStatus::Creating => None::<Value>,
                TaskStatus::Running { cpu_nanos } => Some(Value::Time64(cpu_nanos as i64)),
                TaskStatus::Complete { cpu_nanos } => Some(Value::Time64(cpu_nanos as i64)),
            })
            &&& b.columns@[2]@[r] == utf8_cell(t.metadata.db_name)
            &&& b.columns@[3]@[r] == utf8_cell(t.metadata.partition_key)
            &&& b.columns@[4]@[r] == (match t.metadata.chunk_id {
                Some(c) => Some(Value::UInt32(c)),
                None => None,
            })
            &&& b.columns@[5]@[r] == Some(Value::Utf8(t.metadata.description))
        }
}

/// Builds the operations system table, one row per followed task; a task's
/// CPU time is unknown until it leaves the creating state, and is
/// truncated to the signed range the column carries.
pub fn from_task_trackers(jobs: &Vec<TaskTracker>) -> (r: RecordBatch)
    requires
        forall|r: int|
            0 <= r < jobs@.len() ==> (match (#[trigger] jobs@[r]).status {
                TaskStatus::Creating => true,
                TaskStatus::Running { cpu_nanos } => cpu_nanos <= i64::MAX,
                TaskStatus::Complete { cpu_nanos } => cpu_nanos <= i64::MAX,
            }),
    ensures
        operations_batch_ok(r, jobs@),
{
    let mut ids: Vec<Option<Value>> = Vec::new();
    let mut cpu_time_used: Vec<Option<Value>> = Vec::new();
    let mut db_names: Vec<Option<Value>> = Vec::new();
    let mut partition_keys: Vec<Option<Value>> = Vec::new();
    let mut chunk_ids: Vec<Option<Value>> = Vec::new();
    let mut descriptions: Vec<Option<Value>> = Vec::new();
    let mut i: usize = 0;
    while i < jobs.len()
        invariant
            i <= jobs@.len(),
            forall|r: int|
                0 <= r < jobs@.len() ==> (match (#[trigger] jobs@[r]).status {
                    TaskStatus::Creating => true,
                    TaskStatus::Running { cpu_nanos } => cpu_nanos <= i64::MAX,
                    TaskStatus::Complete { cpu_nanos } => cpu_nanos <= i64::MAX,
                }),
            ids@.len() == i,
            cpu_time_used@.len() == i,
            db_names@.len() == i,
            partition_keys@.len() == i,
            chunk_ids@.len() == i,
            descriptions@.len() == i,
            forall|r: int|
                0 <= r < i ==> {
                    let t = #[trigger] jobs@[r];
                    &&& ids@[r] == Some(Value::Utf8(t.id))
                    &&& cpu_time_used@[r] == (match t.status {
                        TaskStatus::Creating => None::<Value>,
                        TaskStatus::Running { cpu_nanos } => Some(Value::Time64(cpu_nanos as i64)),
                        TaskStatus::Complete { cpu_nanos } => Some(Value::Time64(cpu_nanos as i64)),
                    })
                    &&& db_names@[r] == utf8_cell(t.metadata.db_name)
                    &&& partition_keys@[r] == utf8_cell(t.metadata.partition_key)
                    &&& chunk_ids@[r] == (match t.metadata.chunk_id {
                        Some(c) => Some(Value::UInt32(c)),
                        None => None,
                    })
                    &&& descriptions@[r] == Some(Value::Utf8(t.metadata.description))
                },
        decreases jobs@.len() - i,
    {
        let t = &jobs[i];
        ids.push(Some(Value::Utf8(t.id.clone())));
        cpu_time_used.push(
            match &t.status {
                TaskStatus::Creating => None,
                TaskStatus::Running { cpu_nanos } => Some(Value::Time64(*cpu_nanos as i64)),
                TaskStatus::Complete { cpu_nanos } => Some(Value::Time64(*cpu_nanos as i64)),
            },
        );
        db_names.push(
            match &t.metadata.db_name {
                Some(s) => Some(Value::Utf8(s.clone())),
                None => None,
            },
        );
        partition_keys.push(
            match &t.metadata.partition_key {
                Some(s) => Some(Value::Utf8(s.clone())),
                None => None,
            },
        );
        chunk_ids.push(
            match t.metadata.chunk_id {
                Some(c) => Some(Value::UInt32(c)),
                None => None,
            },
        );
        descriptions.push(Some(Value::Utf8(t.metadata.description.clone())));
        i = i + 1;
    }
    let mut defs: Vec<ColumnDef> = Vec::new();
    defs.push(ColumnDef { name: "id".to_owned(), column_type: ColumnType::Utf8, nullable: false });
    defs.push(
        ColumnDef {
            name: "cpu_time_used".to_owned(),
            column_type: ColumnType::Time64,
            nullable: true,
        },
    );
    defs.push(
        ColumnDef { name: "db_name".to_owned(), column_type: ColumnType::Utf8, nullable: true },
    );
    defs.push(
        ColumnDef {
            name: "partition_key".to_owned(),
            column_type: ColumnType::Utf8,
            nullable: true,
        },
    );
    defs.push(
        ColumnDef { name: "chunk_id".to_owned(), column_type: ColumnType::UInt32, nullable: true },
    );
    defs.push(
        ColumnDef { name: "description".to_owned(), column_type: ColumnType::Utf8, nullable: true },
    );
    let ghost g: Seq<Seq<Option<Value>>> = seq![
        ids@,
        cpu_time_used@,
        db_names@,
        partition_keys@,
        chunk_ids@,
        descriptions@,
    ];
    let mut cols: Vec<Vec<Option<Value>>> = Vec::new();
    cols.push(ids);
    cols.push(cpu_time_used);
    cols.push(db_names);
    cols.push(partition_keys);
    cols.push(chunk_ids);
    cols.push(descriptions);
    let b = RecordBatch {
        schema: Schema { columns: defs, sort_key: None },
        columns: cols,
        n_rows: jobs.len(),
    };
    proof {
        reveal_strlit("id");
        reveal_strlit("cpu_time_used");
        reveal_strlit("db_name");
        reveal_strlit("partition_key");
        reveal_strlit("chunk_id");
        reveal_strlit("description");
        assert(b.schema.columns@.len() == 6);
        assert(b.columns@.len() == 6);
        assert(b.schema.columns@[0].name@ == "id"@);
        assert(b.schema.columns@[1].name@ == "cpu_time_used"@);
        assert(b.schema.columns@[2].name@ == "db_name"@);
        assert(b.schema.columns@[3].name@ == "partition_key"@);
        assert(b.schema.columns@[4].name@ == "chunk_id"@);
        assert(b.schema.columns@[5].name@ == "description"@);
        assert(b.schema.wf()) by {
            assert forall|x: int, y: int| 0 <= x < y < 6 implies b.schema.columns@[x].name@
                != b.schema.columns@[y].name@ by {
                assert(b.schema.columns@[x].name@.len() != b.schema.columns@[y].name@.len()
                    || b.schema.columns@[x].name@[0] != b.schema.columns@[y].name@[0]);
            }
        }
        assert(b.columns@[0]@ == g[0] && b.columns@[1]@ == g[1] && b.columns@[2]@ == g[2]
            && b.columns@[3]@ == g[3] && b.columns@[4]@ == g[4] && b.columns@[5]@ == g[5]);
        assert forall|x: int, r: int|
            0 <= x < b.columns@.len() && 0 <= r < b.n_rows implies cell_ok(
            #[trigger] b.columns@[x]@[r],
            b.schema.columns@[x],
        ) by {
            let t = jobs@[r];
            if x == 0 {
                assert(b.columns@[x]@[r] == Some(Value::Utf8(t.id)));
            } else if x == 1 {
                assert(b.columns@[x]@[r] == (match t.status {
                    TaskStatus::Creating => None::<Value>,
                    TaskStatus::Running { cpu_nanos } => Some(Value::Time64(cpu_nanos as i64)),
                    TaskStatus::Complete { cpu_nanos } => Some(Value::Time64(cpu_nanos as i64)),
                }));
            } else if x == 2 {
                assert(b.columns@[x]@[r] == utf8_cell(t.metadata.db_name));
            } else if x == 3 {
                assert(b.columns@[x]@[r] == utf8_cell(t.metadata.partition_key));
            } else if x == 4 {
                assert(b.columns@[x]@[r] == (match t.metadata.chunk_id {
                    Some(c) => Some(Value::UInt32(c)),
                    None => None,
                }));
            } else {
                assert(b.columns@[x]@[r] == Some(Value::Utf8(t.metadata.description)));
            }
        }
        assert(b.wf());
    }
    b
}

/// The catalog state the system tables draw on.
pub struct Catalog {
    pub chunks: Vec<ChunkSummary>,
    pub partitions: Vec<PartitionSummary>,
}

impl Catalog {
    /// The chunk summaries currently known.
    pub fn chunk_summaries(&self) -> (r: &Vec<ChunkSummary>)
        ensures
            r == &self.chunks,
    {
        &self.chunks
    }

    /// The partition summaries currently known.
    pub fn partition_summaries(&self) -> (r: &Vec<PartitionSummary>)
        ensures
            r == &self.partitions,
    {
        &self.partitions
    }
}

/// The registry of running background jobs.
pub struct JobRegistry {
    pub jobs: Vec<TaskTracker>,
}

impl JobRegistry {
    /// The tasks the registry currently follows.
    pub fn running_jobs(&self) -> (r: &Vec<TaskTracker>)
        ensures
            r == &self.jobs,
    {
        &self.jobs
    }
}

/// Serves the system schema: the chunks, columns and operations tables.
pub struct SystemSchemaProvider {
    pub catalog: Catalog,
    pub jobs: JobRegistry,
}

impl SystemSchemaProvider {
    pub fn new(catalog: Catalog, jobs: JobRegistry) -> (r: SystemSchemaProvider)
        ensures
            r.catalog == catalog,
            r.jobs == jobs,
    {
        SystemSchemaProvider { catalog, jobs }
    }

    /// The names of the tables this schema serves.
    pub fn table_names(&self) -> (r: Vec<String>)
        ensures
            r@.len() == 3,
            r@[0]@ == "chunks"@,
            r@[1]@ == "columns"@,
            r@[2]@ == "operations"@,
    {
        let mut names: Vec<String> = Vec::new();
        names.push("chunks".to_owned());
        names.push("columns".to_owned());
        names.push("operations".to_owned());
        names
    }

    /// Materializes the named system table, or nothing for an unknown
    /// name.
    pub fn table(&self, name: &str) -> (r: Option<RecordBatch>)
        requires
            forall|x: int|
                0 <= x < self.jobs.jobs@.len() ==> (match (#[trigger] self.jobs.jobs@[x]).status {
                    TaskStatus::Creating => true,
                    TaskStatus::Running { cpu_nanos } => cpu_nanos <= i64::MAX,
                    TaskStatus::Complete { cpu_nanos } => cpu_nanos <= i64::MAX,
                }),
        ensures
            name@ == "chunks"@ ==> (r matches Some(b) && chunks_batch_ok(b, self.catalog.chunks@)),
            name@ == "columns"@ ==> (r matches Some(b) && columns_batch_ok(
                b,
                self.catalog.partitions@,
            )),
            name@ == "operations"@ ==> (r matches Some(b) && operations_batch_ok(
                b,
                self.jobs.jobs@,
            )),
            name@ != "chunks"@ && name@ != "columns"@ && name@ != "operations"@ ==> r is None,
    {
        proof {
            reveal_strlit("chunks");
            reveal_strlit("columns");
            reveal_strlit("operations");
            assert("chunks"@.len() == 6);
            assert("columns"@.len() == 7);
            assert("operations"@.len() == 10);
            assert("chunks"@ != "columns"@ && "chunks"@ != "operations"@ && "columns"@
                != "operations"@);
        }
        if crate::text::str_eq(name, "chunks") {
            Some(from_chunk_summaries(&self.catalog.chunks))
        } else if crate::text::str_eq(name, "columns") {
            Some(from_partition_summaries(&self.catalog.partitions))
        } else if crate::text::str_eq(name, "operations") {
            Some(from_task_trackers(&self.jobs.jobs))
        } else {
            None
        }
    }
}

} // verus!
