//! Planning for physical reorganization operations: single-chunk scans,
//! compaction (merge, deduplicate, sort) and splits (compaction plus a
//! two-way partition of the stream on a time boundary).
//!
//! The planner never inspects row data: it consults chunk metadata only
//! and emits a logical plan for a downstream execution engine. That
//! engine's obligations — primary-key ordering for deduplication, honoring
//! delete predicates, routing rows at the split boundary without
//! reordering them — are pinned down here by the plan's contracts and by
//! the split-routing semantics of [`split_batch`].

use vstd::prelude::*;
use crate::data::{cell_ok, clone_cell, clone_schema_cols, RecordBatch, Value};
use crate::predicate::{batch_has_time, batch_times, time_at, Scalar};
use crate::provider::{ChunkTableProvider, ProviderBuilder, ProviderError, QueryChunk};
use crate::schema::{sort_key_view, spec_time_column_name, time_column_name, Schema, SortKey};

verus! {

/// A comparison operator in a filter or boundary expression.
#[derive(Clone, Copy, Debug, PartialEq, Eq, Structural)]
pub enum CompareOp {
    Eq,
    NotEq,
    Lt,
    LtEq,
    Gt,
    GtEq,
}

/// A filter or boundary expression: a column compared against a literal.
#[derive(Debug, PartialEq)]
pub struct Expr {
    pub column: String,
    pub op: CompareOp,
    pub value: Scalar,
}

/// A logical plan for the execution engine.
pub enum LogicalPlan<C> {
    /// Scan the provider's chunks, keeping only the projected columns and
    /// the rows passing every filter; a provider asking for primary-key
    /// sort obliges the engine to emit rows ordered by the tag columns
    /// then time, so identical keys are contiguous for deduplication.
    Scan { provider: ChunkTableProvider<C>, projection: Option<Vec<usize>>, filters: Vec<Expr> },
    /// Split the input stream into two output partitions: rows passing the
    /// boundary expression, then the rest, each keeping the input's order.
    Split { input: Box<LogicalPlan<C>>, split_expr: Expr },
}

/// Wraps a plan in a stream split on the given boundary expression.
pub fn make_stream_split<C: QueryChunk>(plan: LogicalPlan<C>, split_expr: Expr) -> (r: LogicalPlan<
    C,
>)
    ensures
        r matches LogicalPlan::Split { input, split_expr: se } && *input == plan && se
            == split_expr,
{
    LogicalPlan::Split { input: Box::new(plan), split_expr }
}

/// Why a reorganization plan could not be built.
#[derive(Debug)]
pub enum Error {
    /// No chunks were supplied; there is no table to plan over.
    EmptyChunkList,
    /// The chunks could not be wrapped into one table's scan source.
    CreatingProvider { table_name: String, source: ProviderError },
}

/// Planner for physically rearranging chunk data: builds the COMPACT and
/// SPLIT plans used by the database lifecycle manager.
pub struct ReorgPlanner {}

impl Default for ReorgPlanner {
    fn default() -> (r: ReorgPlanner)
        ensures
            r == (ReorgPlanner {  }),
    {
        ReorgPlanner {  }
    }
}

impl ReorgPlanner {
    pub fn new() -> (r: ReorgPlanner)
        ensures
            r == (ReorgPlanner {  }),
    {
        ReorgPlanner::default()
    }

    /// A plan that scans exactly one chunk, with no sort and no
    /// deduplication; used to move one chunk's data wholesale.
    pub fn scan_single_chunk_plan<C: QueryChunk>(&self, schema: Schema, chunk: C) -> (r: Result<
        LogicalPlan<C>,
        Error,
    >)
        ensures
            r matches Ok(plan) && single_chunk_scan_shape(plan, schema, chunk, None, Seq::empty()),
    {
        self.scan_single_chunk_plan_with_filter(schema, chunk, None, Vec::new())
    }

    /// A plan that scans one chunk with an optional column projection and
    /// optional filter expressions.
    pub fn scan_single_chunk_plan_with_filter<C: QueryChunk>(
        &self,
        schema: Schema,
        chunk: C,
        projection: Option<Vec<usize>>,
        filters: Vec<Expr>,
    ) -> (r: Result<LogicalPlan<C>, Error>)
        ensures
            r matches Ok(plan) && single_chunk_scan_shape(plan, schema, chunk, projection, filters@),
    {
        let table_name = chunk.table_name().to_owned();
        let builder: ProviderBuilder<C> = ProviderBuilder::new(table_name.as_str(), schema);
        // there are no predicates in these plans, so nothing needs pruning
        let builder = builder.add_no_op_pruner();
        let builder = builder.add_chunk(chunk);
        match builder.build() {
            Ok(provider) => Ok(LogicalPlan::Scan { provider, projection, filters }),
            Err(e) => {
                proof {
                    // the single chunk carries the provider's own table name
                    assert(false);
                }
                Err(Error::CreatingProvider { table_name, source: e })
            },
        }
    }

    /// A plan for the COMPACT operation: merges the chunks of one table
    /// into a single stream, deduplicating via the primary key, and
    /// records `output_sort` as the compacted output's declared sort key.
    ///
    /// The scan requests primary-key ordering, which is what makes the
    /// engine's deduplication correct: identical-key rows become
    /// contiguous. Delete predicates attached to any chunk must be honored
    /// by the plan's execution. The returned schema is the input schema
    /// with its sort key replaced by `output_sort` (cloned only when the
    /// key actually changes).
    pub fn compact_plan<C: QueryChunk>(
        &self,
        schema: Schema,
        chunks: Vec<C>,
        output_sort: &SortKey,
    ) -> (r: Result<(Schema, LogicalPlan<C>), Error>)
        ensures
            match r {
                Ok((out_schema, plan)) => {
                    &&& chunks@.len() > 0
                    &&& all_same_table(chunks@)
                    &&& out_schema.columns@ == schema.columns@
                    &&& (out_schema.sort_key matches Some(k) && sort_key_view(k) == sort_key_view(
                        *output_sort,
                    ))
                    &&& sorted_scan_shape(plan, schema, chunks)
                },
                Err(Error::EmptyChunkList) => chunks@.len() == 0,
                Err(Error::CreatingProvider { table_name, source }) => {
                    &&& chunks@.len() > 0
                    &&& table_name@ == chunks@[0].spec_table_name()
                    &&& !all_same_table(chunks@)
                },
            },
    {
        let out_cols = clone_schema_cols(&schema);
        let out_sort: Option<SortKey> = match &schema.sort_key {
            Some(k) => {
                if k.matches(output_sort) {
                    Some(k.duplicate())
                } else {
                    Some(output_sort.duplicate())
                }
            },
            None => Some(output_sort.duplicate()),
        };
        let provider = match self.sorted_scan_provider(schema, chunks) {
            Ok(p) => p,
            Err(e) => {
                return Err(e);
            },
        };
        let out_schema = Schema { columns: out_cols, sort_key: out_sort };
        let plan = LogicalPlan::Scan { provider, projection: None, filters: Vec::new() };
        proof {
            assert(out_schema.columns@ =~= schema.columns@);
        }
        Ok((out_schema, plan))
    }

    /// A plan for the SPLIT operation: the compaction plan of
    /// [`Self::compact_plan`], whose sorted output is additionally routed
    /// into two partitions by the boundary test `time <= split_time` —
    /// rows on or before the boundary first, the rest second, each
    /// partition keeping the sorted order.
    pub fn split_plan<C: QueryChunk>(
        &self,
        schema: Schema,
        chunks: Vec<C>,
        output_sort: &SortKey,
        split_time: i64,
    ) -> (r: Result<(Schema, LogicalPlan<C>), Error>)
        ensures
            match r {
                Ok((out_schema, plan)) => {
                    &&& chunks@.len() > 0
                    &&& all_same_table(chunks@)
                    &&& out_schema.columns@ == schema.columns@
                    &&& (out_schema.sort_key matches Some(k) && sort_key_view(k) == sort_key_view(
                        *output_sort,
                    ))
                    &&& (plan matches LogicalPlan::Split { input, split_expr } && {
                        &&& sorted_scan_shape(*input, schema, chunks)
                        &&& split_expr.column@ == spec_time_column_name()
                        &&& split_expr.op == CompareOp::LtEq
                        &&& split_expr.value == Scalar::I64(split_time)
                    })
                },
                Err(Error::EmptyChunkList) => chunks@.len() == 0,
                Err(Error::CreatingProvider { table_name, source }) => {
                    &&& chunks@.len() > 0
                    &&& table_name@ == chunks@[0].spec_table_name()
                    &&& !all_same_table(chunks@)
                },
            },
    {
        let (out_schema, scan_plan) = match self.compact_plan(schema, chunks, output_sort) {
            Ok(p) => p,
            Err(e) => {
                return Err(e);
            },
        };
        // time <= split_time
        let split_expr = Expr {
            column: time_column_name().to_owned(),
            op: CompareOp::LtEq,
            value: Scalar::I64(split_time),
        };
        let plan = make_stream_split(scan_plan, split_expr);
        Ok((out_schema, plan))
    }

    /// Wraps the chunks of one table into a provider whose scan is sorted
    /// on the primary key, so downstream deduplication and splitting see
    /// identical keys contiguously.
    fn sorted_scan_provider<C: QueryChunk>(&self, schema: Schema, chunks: Vec<C>) -> (r: Result<
        ChunkTableProvider<C>,
        Error,
    >)
        ensures
            match r {
                Ok(p) => {
                    &&& chunks@.len() > 0
                    &&& all_same_table(chunks@)
                    &&& p.table_name@ == chunks@[0].spec_table_name()
                    &&& p.schema == schema
                    &&& p.chunks == chunks
                    &&& p.ensure_pk_sort == true
                },
                Err(Error::EmptyChunkList) => chunks@.len() == 0,
                Err(Error::CreatingProvider { table_name, source }) => {
                    &&& chunks@.len() > 0
                    &&& table_name@ == chunks@[0].spec_table_name()
                    &&& !all_same_table(chunks@)
                },
            },
    {
        if chunks.is_empty() {
            return Err(Error::EmptyChunkList);
        }
        let table_name = chunks[0].table_name().to_owned();
        let mut builder: ProviderBuilder<C> = ProviderBuilder::new(table_name.as_str(), schema);
        builder.ensure_pk_sort();
        let builder = builder.add_no_op_pruner();
        let builder = builder.with_chunks(chunks);
        match builder.build() {
            Ok(p) => Ok(p),
            Err(e) => {
                match e {
                    ProviderError::InternalNoChunkPruner => {
                        proof {
                            assert(false);
                        }
                        Err(Error::EmptyChunkList)
                    },
                    ProviderError::TableMismatch { expected, actual } => {
                        proof {
                            let i = choose|i: int|
                                0 <= i < builder.chunks@.len() && (
                                #[trigger] builder.chunks@[i]).spec_table_name() == actual@
                                    && actual@ != builder.table_name@;
                            assert(builder.chunks@[i].spec_table_name()
                                != builder.chunks@[0].spec_table_name() || i == 0);
                            if i == 0 {
                                assert(false);
                            }
                            assert(!all_same_table(builder.chunks@));
                        }
                        Err(
                            Error::CreatingProvider {
                                table_name,
                                source: ProviderError::TableMismatch { expected, actual },
                            },
                        )
                    },
                }
            },
        }
    }
}

/// Whether every chunk reports the same table as the first.
pub open spec fn all_same_table<C: QueryChunk>(chunks: Seq<C>) -> bool {
    forall|i: int|
        0 <= i < chunks.len() ==> (#[trigger] chunks[i]).spec_table_name()
            == chunks[0].spec_table_name()
}

/// What a single-chunk scan plan looks like: a scan of a provider holding
/// exactly the chunk, named after it, with no primary-key sort requested.
pub open spec fn single_chunk_scan_shape<C: QueryChunk>(
    plan: LogicalPlan<C>,
    schema: Schema,
    chunk: C,
    projection: Option<Vec<usize>>,
    filters: Seq<Expr>,
) -> bool {
    plan matches LogicalPlan::Scan { provider, projection: pj, filters: fs } && {
        &&& provider.table_name@ == chunk.spec_table_name()
        &&& provider.schema == schema
        &&& provider.chunks@ =~= seq![chunk]
        &&& provider.ensure_pk_sort == false
        &&& pj == projection
        &&& fs@ == filters
    }
}

/// What the compaction scan looks like: a single scan over all chunks with
/// primary-key sort requested, no projection and no filters.
pub open spec fn sorted_scan_shape<C: QueryChunk>(
    plan: LogicalPlan<C>,
    schema: Schema,
    chunks: Vec<C>,
) -> bool {
    plan matches LogicalPlan::Scan { provider, projection, filters } && {
        &&& provider.table_name@ == chunks@[0].spec_table_name()
        &&& provider.schema == schema
        &&& provider.chunks == chunks
        &&& provider.ensure_pk_sort == true
        &&& projection is None
        &&& filters@.len() == 0
    }
}

// --- the split boundary's routing semantics ---

/// The rows among the first `n` whose time is on or before `t`, in row
/// order.
pub open spec fn rows_on_or_before(batch: RecordBatch, t: i64, n: int) -> Seq<int>
    decreases n,
{
    if n <= 0 {
        Seq::<int>::empty()
    } else if time_at(batch, n - 1) <= t {
        rows_on_or_before(batch, t, n - 1).push(n - 1)
    } else {
        rows_on_or_before(batch, t, n - 1)
    }
}

/// The rows among the first `n` whose time is after `t`, in row order.
pub open spec fn rows_after(batch: RecordBatch, t: i64, n: int) -> Seq<int>
    decreases n,
{
    if n <= 0 {
        Seq::<int>::empty()
    } else if time_at(batch, n - 1) > t {
        rows_after(batch, t, n - 1).push(n - 1)
    } else {
        rows_after(batch, t, n - 1)
    }
}

/// Split boundary correctness: the two row lists partition the first `n`
/// rows — every row with time on or before the boundary goes to the first
/// partition, every other row to the second, and each partition keeps the
/// input's row order (splitting routes rows, it never reorders them).
pub proof fn lemma_split_rows_partition(batch: RecordBatch, t: i64, n: int)
    requires
        n >= 0,
    ensures
        rows_on_or_before(batch, t, n).len() + rows_after(batch, t, n).len() == n,
        forall|j: int|
            0 <= j < rows_on_or_before(batch, t, n).len() ==> {
                let ri = #[trigger] rows_on_or_before(batch, t, n)[j];
                0 <= ri < n && time_at(batch, ri) <= t
            },
        forall|j1: int, j2: int|
            0 <= j1 < j2 < rows_on_or_before(batch, t, n).len() ==> rows_on_or_before(
                batch,
                t,
                n,
            )[j1] < rows_on_or_before(batch, t, n)[j2],
        forall|j: int|
            0 <= j < rows_after(batch, t, n).len() ==> {
                let ri = #[trigger] rows_after(batch, t, n)[j];
                0 <= ri < n && time_at(batch, ri) > t
            },
        forall|j1: int, j2: int|
            0 <= j1 < j2 < rows_after(batch, t, n).len() ==> rows_after(batch, t, n)[j1]
                < rows_after(batch, t, n)[j2],
        forall|r: int|
            0 <= r < n && time_at(batch, r) <= t ==> rows_on_or_before(batch, t, n).contains(r),
        forall|r: int| 0 <= r < n && time_at(batch, r) > t ==> rows_after(batch, t, n).contains(r),
    decreases n,
{
    if n > 0 {
        lemma_split_rows_partition(batch, t, n - 1);
        let b0 = rows_on_or_before(batch, t, n - 1);
        let a0 = rows_after(batch, t, n - 1);
        assert forall|r: int|
            0 <= r < n && time_at(batch, r) <= t implies rows_on_or_before(batch, t, n).contains(
            r,
        ) by {
            if r < n - 1 {
                assert(b0.contains(r));
                let j = choose|j: int| 0 <= j < b0.len() && b0[j] == r;
                if time_at(batch, n - 1) <= t {
                    assert(rows_on_or_before(batch, t, n)[j] == r);
                } else {
                    assert(rows_on_or_before(batch, t, n)[j] == r);
                }
            } else {
                assert(rows_on_or_before(batch, t, n)[rows_on_or_before(batch, t, n).len() - 1]
                    == r);
            }
        }
        assert forall|r: int|
            0 <= r < n && time_at(batch, r) > t implies rows_after(batch, t, n).contains(r) by {
            if r < n - 1 {
                assert(a0.contains(r));
                let j = choose|j: int| 0 <= j < a0.len() && a0[j] == r;
                assert(rows_after(batch, t, n)[j] == r);
            } else {
                assert(rows_after(batch, t, n)[rows_after(batch, t, n).len() - 1] == r);
            }
        }
    }
}

/// Routes a batch's rows into the two output partitions of a split plan:
/// the first holds the rows with time on or before `split_time`, the
/// second the rest, both in the input's row order and under the input's
/// schema.
pub fn split_batch(batch: &RecordBatch, split_time: i64) -> (r: (RecordBatch, RecordBatch))
    requires
        batch.wf(),
        batch_has_time(*batch),
    ensures
        r.0.wf(),
        r.1.wf(),
        r.0.schema.columns@ == batch.schema.columns@,
        r.1.schema.columns@ == batch.schema.columns@,
        r.0.n_rows as int == rows_on_or_before(*batch, split_time, batch.n_rows as int).len(),
        r.1.n_rows as int == rows_after(*batch, split_time, batch.n_rows as int).len(),
        forall|k: int|
            0 <= k < batch.schema.columns@.len() ==> (#[trigger] r.0.columns@[k])@
                == rows_on_or_before(*batch, split_time, batch.n_rows as int).map_values(
                |ri: int| batch.columns@[k]@[ri],
            ),
        forall|k: int|
            0 <= k < batch.schema.columns@.len() ==> (#[trigger] r.1.columns@[k])@ == rows_after(
                *batch,
                split_time,
                batch.n_rows as int,
            ).map_values(|ri: int| batch.columns@[k]@[ri]),
{
    let times = batch_times(batch);
    let n = batch.n_rows;
    // count the rows on or before the boundary
    let mut n0: usize = 0;
    let mut r: usize = 0;
    while r < n
        invariant
            r <= n,
            n == batch.n_rows,
            times@.len() == n,
            forall|m: int| 0 <= m < times@.len() ==> times@[m] as int == time_at(*batch, m),
            n0 as int == rows_on_or_before(*batch, split_time, r as int).len(),
            n0 <= r,
        decreases n - r,
    {
        if times[r] <= split_time {
            n0 = n0 + 1;
        }
        r = r + 1;
    }
    proof {
        lemma_split_rows_partition(*batch, split_time, n as int);
    }
    let n1 = n - n0;
    // route each column's cells
    let mut cols0: Vec<Vec<Option<Value>>> = Vec::new();
    let mut cols1: Vec<Vec<Option<Value>>> = Vec::new();
    let mut k: usize = 0;
    while k < batch.columns.len()
        invariant
            k <= batch.columns@.len(),
            batch.wf(),
            batch_has_time(*batch),
            n == batch.n_rows,
            times@.len() == n,
            forall|m: int| 0 <= m < times@.len() ==> times@[m] as int == time_at(*batch, m),
            cols0@.len() == k,
            cols1@.len() == k,
            forall|x: int|
                0 <= x < k ==> (#[trigger] cols0@[x])@ == rows_on_or_before(
                    *batch,
                    split_time,
                    n as int,
                ).map_values(|ri: int| batch.columns@[x]@[ri]),
            forall|x: int|
                0 <= x < k ==> (#[trigger] cols1@[x])@ == rows_after(
                    *batch,
                    split_time,
                    n as int,
                ).map_values(|ri: int| batch.columns@[x]@[ri]),
        decreases batch.columns@.len() - k,
    {
        let mut col0: Vec<Option<Value>> = Vec::new();
        let mut col1: Vec<Option<Value>> = Vec::new();
        let mut r2: usize = 0;
        while r2 < n
            invariant
                r2 <= n,
                batch.wf(),
                n == batch.n_rows,
                k < batch.columns@.len(),
                times@.len() == n,
                forall|m: int| 0 <= m < times@.len() ==> times@[m] as int == time_at(*batch, m),
                col0@ == rows_on_or_before(*batch, split_time, r2 as int).map_values(
                    |ri: int| batch.columns@[k as int]@[ri],
                ),
                col1@ == rows_after(*batch, split_time, r2 as int).map_values(
                    |ri: int| batch.columns@[k as int]@[ri],
                ),
            decreases n - r2,
        {
            let cell = clone_cell(&batch.columns[k][r2]);
            proof {
                lemma_split_rows_partition(*batch, split_time, r2 as int);
            }
            if times[r2] <= split_time {
                col0.push(cell);
                proof {
                    assert(col0@ =~= rows_on_or_before(*batch, split_time, r2 + 1).map_values(
                        |ri: int| batch.columns@[k as int]@[ri],
                    ));
                    assert(col1@ =~= rows_after(*batch, split_time, r2 + 1).map_values(
                        |ri: int| batch.columns@[k as int]@[ri],
                    ));
                }
            } else {
                col1.push(cell);
                proof {
                    assert(col0@ =~= rows_on_or_before(*batch, split_time, r2 + 1).map_values(
                        |ri: int| batch.columns@[k as int]@[ri],
                    ));
                    assert(col1@ =~= rows_after(*batch, split_time, r2 + 1).map_values(
                        |ri: int| batch.columns@[k as int]@[ri],
                    ));
                }
            }
            r2 = r2 + 1;
        }
        cols0.push(col0);
        cols1.push(col1);
        k = k + 1;
    }
    let part0 = RecordBatch {
        schema: Schema { columns: clone_schema_cols(&batch.schema), sort_key: None },
        columns: cols0,
        n_rows: n0,
    };
    let part1 = RecordBatch {
        schema: Schema { columns: clone_schema_cols(&batch.schema), sort_key: None },
        columns: cols1,
        n_rows: n1,
    };
    proof {
        lemma_split_rows_partition(*batch, split_time, n as int);
        let b = rows_on_or_before(*batch, split_time, n as int);
        let a = rows_after(*batch, split_time, n as int);
        assert forall|x: int, j: int|
            0 <= x < part0.columns@.len() && 0 <= j < part0.n_rows implies cell_ok(
            #[trigger] part0.columns@[x]@[j],
            part0.schema.columns@[x],
        ) by {
            let ri = b[j];
            assert(part0.columns@[x]@[j] == batch.columns@[x]@[ri]);
            assert(cell_ok(batch.columns@[x]@[ri], batch.schema.columns@[x]));
        }
        assert forall|x: int, j: int|
            0 <= x < part1.columns@.len() && 0 <= j < part1.n_rows implies cell_ok(
            #[trigger] part1.columns@[x]@[j],
            part1.schema.columns@[x],
        ) by {
            let ri = a[j];
            assert(part1.columns@[x]@[j] == batch.columns@[x]@[ri]);
            assert(cell_ok(batch.columns@[x]@[ri], batch.schema.columns@[x]));
        }
        assert(part0.wf());
        assert(part1.wf());
    }
    (part0, part1)
}

} // verus!
