//! The queryable batch: an in-memory, pre-persistence aggregation of
//! snapshot batches and tombstones, exposed as a chunk.
//!
//! Its schema is the unified merge of all snapshot schemas; its delete
//! predicates are derived one-for-one from its tombstones at construction;
//! reading it projects a column selection out of every snapshot and
//! concatenates the results, padding missing columns with nulls.

use vstd::prelude::*;
use crate::data::{RecordBatch, SnapshotBatch, Value};
use crate::merge::{
    conflicting_name, has_conflict, is_merge_of, lemma_same_views_same_preds, merge, some_has,
    some_has_typed, SchemaConflict,
};
use crate::predicate::{
    exprs_model, models_of, parse_exprs, valid_predicate_text, DeletePredicate, TimestampRange,
};
use crate::schema::{cols_has, cols_sorted_by_name, selected, ColumnDef, Schema, Selection};

verus! {

/// A persisted record of one delete operation: a time range plus a
/// serialized boolean predicate over columns.
pub struct Tombstone {
    pub id: i64,
    pub table_id: i64,
    pub sequencer_id: i64,
    pub sequence_number: i64,
    pub min_time: i64,
    pub max_time: i64,
    pub serialized_predicate: String,
}

impl Tombstone {
    /// Whether the tombstone's bounds are ordered and its predicate text is
    /// well-formed, so that building a delete predicate from it succeeds.
    pub open spec fn parses(&self) -> bool {
        &&& self.min_time <= self.max_time
        &&& valid_predicate_text(self.serialized_predicate@)
    }
}

/// Reading a queryable batch failed: concatenating the projected snapshots
/// found two of them disagreeing on a column's type.
#[derive(Debug, PartialEq)]
pub enum Error {
    ConcatBatches { conflict: SchemaConflict },
}

/// How far a predicate could be checked against chunk metadata alone.
#[derive(Clone, Copy, Debug, PartialEq, Eq, Structural)]
pub enum PredicateMatch {
    /// No row can match.
    Zero,
    /// At least one row matches.
    AtLeastOne,
    /// Metadata alone cannot tell.
    Unknown,
}

/// In-memory snapshot batches of one table plus the tombstones that apply
/// to them, exposed as a chunk-shaped data source.
pub struct QueryableBatch {
    /// The snapshot batches, in arrival order.
    pub data: Vec<SnapshotBatch>,
    /// The tombstones, as stored.
    pub deletes: Vec<Tombstone>,
    /// The delete predicates derived one-for-one from `deletes`.
    pub delete_predicates: Vec<DeletePredicate>,
    /// The owning table.
    pub table_name: String,
}

impl QueryableBatch {
    /// Well-formedness: every snapshot's data block is well-formed.
    pub open spec fn wf(&self) -> bool {
        forall|i: int| 0 <= i < self.data@.len() ==> (#[trigger] self.data@[i]).data.wf()
    }

    /// The schemas of the contained snapshot batches.
    pub open spec fn spec_schemas(&self) -> Seq<Schema> {
        self.data@.map_values(|sb: SnapshotBatch| sb.data.schema)
    }

    /// Builds a queryable batch, deriving one delete predicate from each
    /// tombstone's stored bounds and serialized predicate text.
    pub fn new(table_name: &str, data: Vec<SnapshotBatch>, deletes: Vec<Tombstone>) -> (r:
        QueryableBatch)
        requires
            forall|i: int| 0 <= i < deletes@.len() ==> (#[trigger] deletes@[i]).parses(),
        ensures
            r.table_name@ == table_name@,
            r.data == data,
            r.deletes == deletes,
            r.delete_predicates@.len() == deletes@.len(),
            forall|i: int|
                0 <= i < deletes@.len() ==> {
                    let p = #[trigger] r.delete_predicates@[i];
                    &&& p.range.start == deletes@[i].min_time
                    &&& p.range.end == deletes@[i].max_time
                    &&& exprs_model(p.exprs@) == models_of(deletes@[i].serialized_predicate@)
                },
    {
        let mut delete_predicates: Vec<DeletePredicate> = Vec::new();
        let mut i: usize = 0;
        while i < deletes.len()
            invariant
                i <= deletes@.len(),
                forall|j: int| 0 <= j < deletes@.len() ==> (#[trigger] deletes@[j]).parses(),
                delete_predicates@.len() == i,
                forall|j: int|
                    0 <= j < i ==> {
                        let p = #[trigger] delete_predicates@[j];
                        &&& p.range.start == deletes@[j].min_time
                        &&& p.range.end == deletes@[j].max_time
                        &&& exprs_model(p.exprs@) == models_of(deletes@[j].serialized_predicate@)
                    },
            decreases deletes@.len() - i,
        {
            let d = &deletes[i];
            match parse_exprs(d.serialized_predicate.as_str()) {
                Some(exprs) => {
                    delete_predicates.push(
                        DeletePredicate { range: TimestampRange::new(d.min_time, d.max_time), exprs },
                    );
                },
                None => {
                    proof {
                        assert(false);
                    }
                },
            }
            i = i + 1;
        }
        QueryableBatch {
            data,
            deletes,
            delete_predicates,
            table_name: table_name.to_owned(),
        }
    }

    /// The inclusive sequence-number range of the first snapshot.
    ///
    /// At least one snapshot must be present, with an ordered range;
    /// querying an empty queryable batch is a caller bug.
    pub fn min_max_sequence_numbers(&self) -> (r: (i64, i64))
        requires
            self.data@.len() > 0,
            self.data@[0].min_sequence_number <= self.data@[0].max_sequence_number,
        ensures
            r.0 == self.data@[0].min_sequence_number,
            r.1 == self.data@[0].max_sequence_number,
    {
        let min = self.data[0].min_sequence_number;
        let max = self.data[0].max_sequence_number;
        (min, max)
    }

    /// No declared sort key.
    pub fn sort_key(&self) -> (r: Option<crate::schema::SortKey>)
        ensures
            r is None,
    {
        None
    }

    /// Checking a predicate against this batch's metadata alone decides
    /// nothing; rows must be read.
    pub fn apply_predicate_to_metadata(&self, _predicate: &crate::predicate::Predicate) -> (r:
        PredicateMatch)
        ensures
            r == PredicateMatch::Unknown,
    {
        PredicateMatch::Unknown
    }

    /// Column names cannot be answered from metadata alone.
    pub fn column_names(
        &self,
        _predicate: &crate::predicate::Predicate,
        _columns: &Selection,
    ) -> (r: Option<Vec<String>>)
        ensures
            r is None,
    {
        None
    }

    /// Distinct column values cannot be answered from metadata alone.
    pub fn column_values(
        &self,
        _column_name: &str,
        _predicate: &crate::predicate::Predicate,
    ) -> (r: Option<Vec<String>>)
        ensures
            r is None,
    {
        None
    }

    /// The kind of chunk this data source presents as.
    pub fn chunk_type(&self) -> (r: &'static str)
        ensures
            r@ == "PersistingBatch"@,
    {
        "PersistingBatch"
    }

    /// The unified schema of all contained snapshot batches, recomputed on
    /// each call.
    pub fn schema(&self) -> (r: Result<Schema, SchemaConflict>)
        requires
            self.wf(),
        ensures
            match r {
                Ok(m) => {
                    &&& !has_conflict(self.spec_schemas())
                    &&& m.wf()
                    &&& is_merge_of(m.columns@, self.spec_schemas())
                    &&& m.sort_key is None
                },
                Err(e) => {
                    &&& has_conflict(self.spec_schemas())
                    &&& conflicting_name(self.spec_schemas(), e.column@)
                    &&& e.first_type != e.second_type
                    &&& some_has_typed(self.spec_schemas(), e.column@, e.first_type)
                    &&& some_has_typed(self.spec_schemas(), e.column@, e.second_type)
                },
            },
    {
        let mut schemas: Vec<Schema> = Vec::new();
        let mut i: usize = 0;
        while i < self.data.len()
            invariant
                i <= self.data@.len(),
                self.wf(),
                schemas@.len() == i,
                forall|j: int|
                    0 <= j < i ==> (#[trigger] schemas@[j]).columns@
                        == self.data@[j].data.schema.columns@,
            decreases self.data@.len() - i,
        {
            let cols = crate::data::clone_schema_cols(&self.data[i].data.schema);
            schemas.push(Schema { columns: cols, sort_key: None });
            i = i + 1;
        }
        proof {
            assert(schemas@.len() == self.spec_schemas().len());
            assert forall|j: int| 0 <= j < schemas@.len() implies schemas@[j].columns@
                == self.spec_schemas()[j].columns@ by {
                assert(self.spec_schemas()[j] == self.data@[j].data.schema);
            }
            lemma_same_views_same_preds(schemas@, self.spec_schemas());
            assert forall|j: int| 0 <= j < schemas@.len() implies (#[trigger] schemas@[j]).wf() by {
                assert(self.data@[j].data.wf());
            }
        }
        merge(&schemas)
    }
}

// --- what a read returns ---

/// Whether the selection requests at least one of the snapshot's columns,
/// so the snapshot contributes its rows to a read.
pub open spec fn contributes(sb: SnapshotBatch, sel: Selection) -> bool {
    exists|i: int|
        0 <= i < sb.data.schema.columns@.len() && selected(
            sel,
            (#[trigger] sb.data.schema.columns@[i]).name@,
        )
}

/// Whether a read over `data` with selection `sel` yields a column named
/// `name`.
pub open spec fn source_has(data: Seq<SnapshotBatch>, sel: Selection, name: Seq<char>) -> bool {
    selected(sel, name) && exists|j: int|
        0 <= j < data.len() && (#[trigger] data[j]).data.has_col(name)
}

pub open spec fn source_has_typed(
    data: Seq<SnapshotBatch>,
    sel: Selection,
    name: Seq<char>,
    t: crate::schema::ColumnType,
) -> bool {
    selected(sel, name) && exists|j: int|
        0 <= j < data.len() && crate::schema::cols_has_typed(
            (#[trigger] data[j]).data.schema.columns@,
            name,
            t,
        )
}

pub open spec fn source_has_nullable(
    data: Seq<SnapshotBatch>,
    sel: Selection,
    name: Seq<char>,
) -> bool {
    selected(sel, name) && exists|j: int|
        0 <= j < data.len() && crate::schema::cols_has_nullable(
            (#[trigger] data[j]).data.schema.columns@,
            name,
        )
}

/// Whether some contributing snapshot lacks the column, so its rows are
/// padded with nulls there.
pub open spec fn source_lacks(data: Seq<SnapshotBatch>, sel: Selection, name: Seq<char>) -> bool {
    exists|j: int|
        0 <= j < data.len() && contributes(#[trigger] data[j], sel) && !data[j].data.has_col(name)
}

/// Rows one snapshot contributes to a read.
pub open spec fn snap_rows(sb: SnapshotBatch, sel: Selection) -> int {
    if contributes(sb, sel) {
        sb.data.n_rows as int
    } else {
        0
    }
}

/// Total rows of a read: the rows of every contributing snapshot.
pub open spec fn total_rows(data: Seq<SnapshotBatch>, sel: Selection) -> int
    decreases data.len(),
{
    if data.len() == 0 {
        0
    } else {
        total_rows(data.drop_last(), sel) + snap_rows(data.last(), sel)
    }
}

/// All-null cells for `n` rows.
pub open spec fn null_cells(n: int) -> Seq<Option<Value>> {
    Seq::new(n as nat, |r: int| None)
}

/// The cells one snapshot contributes to the output column named `name`:
/// its own cells when it has the column, nulls for its rows when a
/// contributing snapshot lacks it, nothing when it does not contribute.
pub open spec fn snap_cells(sb: SnapshotBatch, sel: Selection, name: Seq<char>) -> Seq<
    Option<Value>,
> {
    if !contributes(sb, sel) {
        Seq::empty()
    } else if sb.data.has_col(name) {
        sb.data.col_cells(name)
    } else {
        null_cells(sb.data.n_rows as int)
    }
}

/// The output column named `name`: every snapshot's contribution, in
/// snapshot order.
pub open spec fn concat_cells(data: Seq<SnapshotBatch>, sel: Selection, name: Seq<char>) -> Seq<
    Option<Value>,
>
    decreases data.len(),
{
    if data.len() == 0 {
        Seq::<Option<Value>>::empty()
    } else {
        concat_cells(data.drop_last(), sel, name) + snap_cells(data.last(), sel, name)
    }
}

/// Unfolds the per-snapshot totals one step at a time.
proof fn lemma_take_succ_read(data: Seq<SnapshotBatch>, sel: Selection, i: int, name: Seq<char>)
    requires
        0 <= i < data.len(),
    ensures
        total_rows(data.take(i + 1), sel) == total_rows(data.take(i), sel) + snap_rows(
            data[i],
            sel,
        ),
        concat_cells(data.take(i + 1), sel, name) == concat_cells(data.take(i), sel, name)
            + snap_cells(data[i], sel, name),
{
    assert(data.take(i + 1).drop_last() =~= data.take(i));
    assert(data.take(i + 1).last() == data[i]);
}

/// Each prefix total is bounded by the whole and nonnegative.
proof fn lemma_total_rows_bounds(data: Seq<SnapshotBatch>, sel: Selection, k: int)
    requires
        0 <= k <= data.len(),
    ensures
        0 <= total_rows(data.take(k), sel) <= total_rows(data, sel),
    decreases data.len() - k,
{
    if k == data.len() {
        assert(data.take(k) =~= data);
        lemma_total_rows_nonneg(data, sel);
    } else {
        lemma_total_rows_bounds(data, sel, k + 1);
        assert(data.take(k + 1).drop_last() =~= data.take(k));
        assert(data.take(k + 1).last() == data[k]);
        lemma_total_rows_nonneg(data.take(k), sel);
    }
}

proof fn lemma_total_rows_nonneg(data: Seq<SnapshotBatch>, sel: Selection)
    ensures
        total_rows(data, sel) >= 0,
    decreases data.len(),
{
    if data.len() > 0 {
        lemma_total_rows_nonneg(data.drop_last(), sel);
    }
}

/// An output column is as long as the read's total row count.
proof fn lemma_concat_cells_len(data: Seq<SnapshotBatch>, sel: Selection, name: Seq<char>)
    requires
        forall|i: int| 0 <= i < data.len() ==> (#[trigger] data[i]).data.wf(),
    ensures
        concat_cells(data, sel, name).len() == total_rows(data, sel),
    decreases data.len(),
{
    if data.len() > 0 {
        let sb = data.last();
        assert(forall|i: int|
            0 <= i < data.drop_last().len() ==> data.drop_last()[i] == data[i]);
        lemma_concat_cells_len(data.drop_last(), sel, name);
        assert(data.contains(sb)) by {
            assert(data[data.len() - 1] == sb);
        }
        assert(sb.data.wf());
        if contributes(sb, sel) && sb.data.has_col(name) {
            crate::data::lemma_first_index_named(sb.data.schema.columns@, name);
            assert(sb.data.col_cells(name).len() == sb.data.n_rows);
        }
    }
}

/// Every cell of an output column fits the merged column definition.
proof fn lemma_concat_cells_ok(
    data: Seq<SnapshotBatch>,
    sel: Selection,
    c: ColumnDef,
)
    requires
        forall|i: int| 0 <= i < data.len() ==> (#[trigger] data[i]).data.wf(),
        selected(sel, c.name@),
        forall|t: crate::schema::ColumnType|
            #[trigger] source_has_typed(data, sel, c.name@, t) ==> t == c.column_type,
        source_has_nullable(data, sel, c.name@) ==> c.nullable,
        source_lacks(data, sel, c.name@) ==> c.nullable,
    ensures
        forall|r: int|
            0 <= r < concat_cells(data, sel, c.name@).len() ==> crate::data::cell_ok(
                #[trigger] concat_cells(data, sel, c.name@)[r],
                c,
            ),
    decreases data.len(),
{
    if data.len() > 0 {
        let butlast = data.drop_last();
        let sb = data.last();
        let name = c.name@;
        assert(forall|i: int| 0 <= i < butlast.len() ==> butlast[i] == data[i]);
        // the hypotheses restrict to the prefix
        assert forall|t: crate::schema::ColumnType|
            #[trigger] source_has_typed(butlast, sel, name, t) implies t == c.column_type by {
            let j = choose|j: int|
                0 <= j < butlast.len() && crate::schema::cols_has_typed(
                    (#[trigger] butlast[j]).data.schema.columns@,
                    name,
                    t,
                );
            assert(crate::schema::cols_has_typed(data[j].data.schema.columns@, name, t));
            assert(source_has_typed(data, sel, name, t));
        }
        if source_has_nullable(butlast, sel, name) {
            let j = choose|j: int|
                0 <= j < butlast.len() && crate::schema::cols_has_nullable(
                    (#[trigger] butlast[j]).data.schema.columns@,
                    name,
                );
            assert(crate::schema::cols_has_nullable(data[j].data.schema.columns@, name));
            assert(source_has_nullable(data, sel, name));
        }
        if source_lacks(butlast, sel, name) {
            let j = choose|j: int|
                0 <= j < butlast.len() && contributes(#[trigger] butlast[j], sel)
                    && !butlast[j].data.has_col(name);
            assert(contributes(data[j], sel) && !data[j].data.has_col(name));
            assert(source_lacks(data, sel, name));
        }
        lemma_concat_cells_ok(butlast, sel, c);
        // the last snapshot's own contribution
        assert(sb == data[data.len() - 1]);
        assert(sb.data.wf());
        let tail = snap_cells(sb, sel, name);
        assert forall|r: int| 0 <= r < tail.len() implies crate::data::cell_ok(
            #[trigger] tail[r],
            c,
        ) by {
            if contributes(sb, sel) {
                if sb.data.has_col(name) {
                    crate::data::lemma_first_index_named(sb.data.schema.columns@, name);
                    let f = crate::data::first_index_named(sb.data.schema.columns@, name);
                    let d = sb.data.schema.columns@[f];
                    assert(crate::data::cell_ok(sb.data.columns@[f]@[r], d));
                    assert(crate::schema::cols_has_typed(
                        sb.data.schema.columns@,
                        name,
                        d.column_type,
                    ));
                    assert(source_has_typed(data, sel, name, d.column_type)) by {
                        assert(data[data.len() - 1] == sb);
                    }
                    assert(d.column_type == c.column_type);
                    if tail[r] is None {
                        assert(d.nullable);
                        assert(crate::schema::cols_has_nullable(sb.data.schema.columns@, name));
                        assert(source_has_nullable(data, sel, name)) by {
                            assert(data[data.len() - 1] == sb);
                        }
                    }
                } else {
                    assert(source_lacks(data, sel, name)) by {
                        assert(data[data.len() - 1] == sb);
                    }
                    assert(tail[r] is None);
                }
            }
        }
        assert(concat_cells(data, sel, name) == concat_cells(butlast, sel, name) + tail);
    }
}

impl QueryableBatch {
    /// Reads the batch: projects the requested column selection out of
    /// every snapshot and concatenates the results into one block, padding
    /// any column a contributing snapshot lacks with nulls for that
    /// snapshot's rows.
    ///
    /// The filter parameter is accepted for interface compatibility and
    /// ignored: filtering is the consuming plan's responsibility. Delete
    /// predicates are likewise applied by the plan, not here. A selection
    /// matching no column yields an empty block, never an error; the read
    /// fails exactly when two snapshots disagree on a selected column's
    /// type.
    pub fn read_filter(&self, _predicate: &crate::predicate::Predicate, selection: &Selection) -> (r:
        Result<RecordBatch, Error>)
        requires
            self.wf(),
            total_rows(self.data@, *selection) <= usize::MAX,
        ensures
            match r {
                Ok(out) => {
                    &&& out.wf()
                    &&& cols_sorted_by_name(out.schema.columns@)
                    &&& forall|n: Seq<char>|
                        #[trigger] cols_has(out.schema.columns@, n) == source_has(
                            self.data@,
                            *selection,
                            n,
                        )
                    &&& out.n_rows as int == total_rows(self.data@, *selection)
                    &&& forall|k: int|
                        0 <= k < out.schema.columns@.len() ==> {
                            let c = #[trigger] out.schema.columns@[k];
                            &&& source_has_typed(self.data@, *selection, c.name@, c.column_type)
                            &&& c.nullable == (source_has_nullable(self.data@, *selection, c.name@)
                                || source_lacks(self.data@, *selection, c.name@))
                            &&& out.columns@[k]@ == concat_cells(self.data@, *selection, c.name@)
                        }
                    &&& forall|n: Seq<char>, t1: crate::schema::ColumnType, t2: crate::schema::ColumnType|
                        #![trigger source_has_typed(self.data@, *selection, n, t1), source_has_typed(self.data@, *selection, n, t2)]
                        source_has_typed(self.data@, *selection, n, t1) && source_has_typed(
                            self.data@,
                            *selection,
                            n,
                            t2,
                        ) ==> t1 == t2
                },
                Err(e) => match e {
                    Error::ConcatBatches { conflict } => {
                        &&& conflict.first_type != conflict.second_type
                        &&& source_has_typed(
                            self.data@,
                            *selection,
                            conflict.column@,
                            conflict.first_type,
                        )
                        &&& source_has_typed(
                            self.data@,
                            *selection,
                            conflict.column@,
                            conflict.second_type,
                        )
                    },
                },
            },
    {
        let ghost data = self.data@;
        let ghost sel = *selection;
        // project the selection out of every snapshot
        let mut parts: Vec<Option<RecordBatch>> = Vec::new();
        let mut i: usize = 0;
        while i < self.data.len()
            invariant
                i <= self.data@.len(),
                self.wf(),
                data == self.data@,
                sel == *selection,
                parts@.len() == i,
                forall|j: int| 0 <= j < i ==> part_ok(#[trigger] parts@[j], data[j], sel),
            decreases self.data@.len() - i,
        {
            let p = self.data[i].scan(selection);
            proof {
                if p is None && contributes(data[i as int], sel) {
                    let ci = choose|ci: int|
                        0 <= ci < data[i as int].data.schema.columns@.len() && selected(
                            sel,
                            (#[trigger] data[i as int].data.schema.columns@[ci]).name@,
                        );
                    assert(data[i as int].data.has_col(
                        data[i as int].data.schema.columns@[ci].name@,
                    ));
                }
            }
            parts.push(p);
            i = i + 1;
        }
        // gather the projected schemas and merge them
        let mut schemas: Vec<Schema> = Vec::new();
        proof {
            assert(data.take(0) =~= Seq::<SnapshotBatch>::empty());
            assert forall|n: Seq<char>| !(#[trigger] some_has(schemas@, n)) by {
                if some_has(schemas@, n) {
                    let s = choose|s: Schema| #[trigger] schemas@.contains(s) && cols_has(s.columns@, n);
                    let x = choose|x: int| 0 <= x < schemas@.len() && schemas@[x] == s;
                }
            }
            assert forall|n: Seq<char>, t: crate::schema::ColumnType|
                !(#[trigger] crate::merge::some_has_typed(schemas@, n, t)) by {
                if crate::merge::some_has_typed(schemas@, n, t) {
                    let s = choose|s: Schema|
                        #[trigger] schemas@.contains(s) && crate::schema::cols_has_typed(
                            s.columns@,
                            n,
                            t,
                        );
                    let x = choose|x: int| 0 <= x < schemas@.len() && schemas@[x] == s;
                }
            }
            assert forall|n: Seq<char>| !(#[trigger] crate::merge::some_has_nullable(schemas@, n)) by {
                if crate::merge::some_has_nullable(schemas@, n) {
                    let s = choose|s: Schema|
                        #[trigger] schemas@.contains(s) && crate::schema::cols_has_nullable(
                            s.columns@,
                            n,
                        );
                    let x = choose|x: int| 0 <= x < schemas@.len() && schemas@[x] == s;
                }
            }
            assert forall|n: Seq<char>| !(#[trigger] crate::merge::some_lacks(schemas@, n)) by {
                if crate::merge::some_lacks(schemas@, n) {
                    let s = choose|s: Schema|
                        #[trigger] schemas@.contains(s) && !cols_has(s.columns@, n);
                    let x = choose|x: int| 0 <= x < schemas@.len() && schemas@[x] == s;
                }
            }
        }
        let mut i: usize = 0;
        while i < parts.len()
            invariant
                i <= parts@.len(),
                parts@.len() == data.len(),
                self.wf(),
                data == self.data@,
                sel == *selection,
                forall|j: int| 0 <= j < data.len() ==> part_ok(#[trigger] parts@[j], data[j], sel),
                forall|j: int| 0 <= j < schemas@.len() ==> (#[trigger] schemas@[j]).wf(),
                forall|n: Seq<char>|
                    #[trigger] some_has(schemas@, n) == source_has(data.take(i as int), sel, n),
                forall|n: Seq<char>, t: crate::schema::ColumnType|
                    #[trigger] crate::merge::some_has_typed(schemas@, n, t) == source_has_typed(
                        data.take(i as int),
                        sel,
                        n,
                        t,
                    ),
                forall|n: Seq<char>|
                    #[trigger] crate::merge::some_has_nullable(schemas@, n) == source_has_nullable(
                        data.take(i as int),
                        sel,
                        n,
                    ),
                forall|n: Seq<char>|
                    selected(sel, n) ==> #[trigger] crate::merge::some_lacks(schemas@, n)
                        == source_lacks(data.take(i as int), sel, n),
            decreases parts@.len() - i,
        {
            let ghost old_schemas = schemas@;
            match &parts[i] {
                Some(pb) => {
                    let cols = crate::data::clone_schema_cols(&pb.schema);
                    schemas.push(Schema { columns: cols, sort_key: None });
                    proof {
                        let cloned = schemas@[schemas@.len() - 1];
                        let src = data[i as int].data;
                        assert(part_ok(parts@[i as int], data[i as int], sel));
                        assert(cloned.columns@ == pb.schema.columns@);
                        assert(src.wf());
                        lemma_projection_schema_preds(*pb, src, sel);
                        lemma_projection_contributes(*pb, data[i as int], sel);
                        assert(cloned.wf()) by {
                            assert(pb.schema.wf());
                        }
                        assert forall|n: Seq<char>| #[trigger] some_has(schemas@, n) == source_has(
                            data.take(i + 1),
                            sel,
                            n,
                        ) by {
                            crate::merge::lemma_some_preds_push(old_schemas, cloned, n);
                            lemma_source_preds_take_succ(data, sel, i as int, n);
                        }
                        assert forall|n: Seq<char>, t: crate::schema::ColumnType|
                            #[trigger] crate::merge::some_has_typed(schemas@, n, t)
                                == source_has_typed(data.take(i + 1), sel, n, t) by {
                            crate::merge::lemma_some_preds_push(old_schemas, cloned, n);
                            lemma_source_preds_take_succ(data, sel, i as int, n);
                        }
                        assert forall|n: Seq<char>|
                            #[trigger] crate::merge::some_has_nullable(schemas@, n)
                                == source_has_nullable(data.take(i + 1), sel, n) by {
                            crate::merge::lemma_some_preds_push(old_schemas, cloned, n);
                            lemma_source_preds_take_succ(data, sel, i as int, n);
                        }
                        assert forall|n: Seq<char>| selected(sel, n) implies
                            #[trigger] crate::merge::some_lacks(schemas@, n) == source_lacks(
                            data.take(i + 1),
                            sel,
                            n,
                        ) by {
                            crate::merge::lemma_some_preds_push(old_schemas, cloned, n);
                            lemma_source_preds_take_succ(data, sel, i as int, n);
                        }
                    }
                },
                None => {
                    proof {
                        assert(part_ok(parts@[i as int], data[i as int], sel));
                        assert(!contributes(data[i as int], sel));
                        let src = data[i as int].data;
                        assert forall|n: Seq<char>| !(selected(sel, n) && src.has_col(n)) by {
                            if selected(sel, n) && src.has_col(n) {
                                let ci = choose|ci: int|
                                    0 <= ci < src.schema.columns@.len()
                                        && src.schema.columns@[ci].name@ == n;
                                assert(selected(sel, src.schema.columns@[ci].name@));
                                assert(contributes(data[i as int], sel));
                            }
                        }
                        assert forall|n: Seq<char>| #[trigger] some_has(schemas@, n) == source_has(
                            data.take(i + 1),
                            sel,
                            n,
                        ) by {
                            lemma_source_preds_take_succ(data, sel, i as int, n);
                        }
                        assert forall|n: Seq<char>, t: crate::schema::ColumnType|
                            #[trigger] crate::merge::some_has_typed(schemas@, n, t)
                                == source_has_typed(data.take(i + 1), sel, n, t) by {
                            lemma_source_preds_take_succ(data, sel, i as int, n);
                            if crate::schema::cols_has_typed(src.schema.columns@, n, t) && selected(
                                sel,
                                n,
                            ) {
                                let ci = choose|ci: int|
                                    0 <= ci < src.schema.columns@.len()
                                        && src.schema.columns@[ci].name@ == n
                                        && src.schema.columns@[ci].column_type == t;
                                assert(src.has_col(n));
                            }
                        }
                        assert forall|n: Seq<char>|
                            #[trigger] crate::merge::some_has_nullable(schemas@, n)
                                == source_has_nullable(data.take(i + 1), sel, n) by {
                            lemma_source_preds_take_succ(data, sel, i as int, n);
                            if crate::schema::cols_has_nullable(src.schema.columns@, n) && selected(
                                sel,
                                n,
                            ) {
                                let ci = choose|ci: int|
                                    0 <= ci < src.schema.columns@.len()
                                        && src.schema.columns@[ci].name@ == n
                                        && src.schema.columns@[ci].nullable;
                                assert(src.has_col(n));
                            }
                        }
                        assert forall|n: Seq<char>| selected(sel, n) implies
                            #[trigger] crate::merge::some_lacks(schemas@, n) == source_lacks(
                            data.take(i + 1),
                            sel,
                            n,
                        ) by {
                            lemma_source_preds_take_succ(data, sel, i as int, n);
                        }
                    }
                },
            }
            i = i + 1;
        }
        proof {
            assert(data.take(data.len() as int) =~= data);
        }
        let merged = match merge(&schemas) {
            Ok(m) => m,
            Err(e) => {
                proof {
                    crate::merge::lemma_typed_implies_has(schemas@, e.column@, e.first_type);
                }
                return Err(Error::ConcatBatches { conflict: e });
            },
        };
        proof {
            // no two snapshots disagree on a selected column's type
            assert forall|n: Seq<char>, t1: crate::schema::ColumnType, t2: crate::schema::ColumnType|
                #![trigger source_has_typed(data, sel, n, t1), source_has_typed(data, sel, n, t2)]
                source_has_typed(data, sel, n, t1) && source_has_typed(data, sel, n, t2) implies t1
                == t2 by {
                if t1 != t2 {
                    assert(crate::merge::some_has_typed(schemas@, n, t1));
                    assert(crate::merge::some_has_typed(schemas@, n, t2));
                    assert(crate::merge::conflicting_name(schemas@, n));
                    assert(has_conflict(schemas@));
                }
            }
            // the merged columns' facts transfer to the snapshots
            assert forall|n: Seq<char>| #[trigger] cols_has(merged.columns@, n) == source_has(
                data,
                sel,
                n,
            ) by {
                if cols_has(merged.columns@, n) {
                    let k = choose|k: int|
                        0 <= k < merged.columns@.len() && merged.columns@[k].name@ == n;
                    assert(crate::merge::merged_col_ok(merged.columns@[k], schemas@));
                    crate::merge::lemma_typed_implies_has(
                        schemas@,
                        n,
                        merged.columns@[k].column_type,
                    );
                }
                if source_has(data, sel, n) {
                    assert(some_has(schemas@, n));
                }
            }
            assert forall|k: int| 0 <= k < merged.columns@.len() implies {
                let c = #[trigger] merged.columns@[k];
                &&& source_has_typed(data, sel, c.name@, c.column_type)
                &&& c.nullable == (source_has_nullable(data, sel, c.name@) || source_lacks(
                    data,
                    sel,
                    c.name@,
                ))
                &&& selected(sel, c.name@)
            } by {
                let c = merged.columns@[k];
                assert(crate::merge::merged_col_ok(c, schemas@));
                assert(source_has_typed(data, sel, c.name@, c.column_type));
            }
        }
        // count the rows every contributing snapshot brings
        let mut total: usize = 0;
        let mut i: usize = 0;
        proof {
            assert(data.take(0) =~= Seq::<SnapshotBatch>::empty());
        }
        while i < parts.len()
            invariant
                i <= parts@.len(),
                parts@.len() == data.len(),
                self.wf(),
                data == self.data@,
                sel == *selection,
                total_rows(data, sel) <= usize::MAX,
                forall|j: int| 0 <= j < data.len() ==> part_ok(#[trigger] parts@[j], data[j], sel),
                total as int == total_rows(data.take(i as int), sel),
            decreases parts@.len() - i,
        {
            match &parts[i] {
                Some(pb) => {
                    proof {
                        assert(part_ok(parts@[i as int], data[i as int], sel));
                        lemma_projection_contributes(*pb, data[i as int], sel);
                        assert(pb.n_rows == data[i as int].data.n_rows);
                        lemma_take_succ_read(data, sel, i as int, Seq::<char>::empty());
                        lemma_total_rows_bounds(data, sel, i + 1);
                    }
                    total = total + pb.n_rows;
                },
                None => {
                    proof {
                        assert(part_ok(parts@[i as int], data[i as int], sel));
                        lemma_take_succ_read(data, sel, i as int, Seq::<char>::empty());
                    }
                },
            }
            i = i + 1;
        }
        proof {
            assert(data.take(data.len() as int) =~= data);
        }
        // assemble each output column, padding with nulls where a
        // contributing snapshot lacks it
        let mut out_cols: Vec<Vec<Option<Value>>> = Vec::new();
        let mut k: usize = 0;
        while k < merged.columns.len()
            invariant
                k <= merged.columns@.len(),
                parts@.len() == data.len(),
                self.wf(),
                data == self.data@,
                sel == *selection,
                forall|j: int| 0 <= j < data.len() ==> part_ok(#[trigger] parts@[j], data[j], sel),
                forall|x: int| 0 <= x < merged.columns@.len() ==> selected(sel, (#[trigger] merged.columns@[x]).name@),
                out_cols@.len() == k,
                forall|x: int|
                    0 <= x < k ==> (#[trigger] out_cols@[x])@ == concat_cells(
                        data,
                        sel,
                        merged.columns@[x].name@,
                    ),
            decreases merged.columns@.len() - k,
        {
            let name: &str = merged.columns[k].name.as_str();
            let ghost gname = merged.columns@[k as int].name@;
            let mut col: Vec<Option<Value>> = Vec::new();
            proof {
                assert(data.take(0) =~= Seq::<SnapshotBatch>::empty());
            }
            let mut i: usize = 0;
            while i < parts.len()
                invariant
                    i <= parts@.len(),
                    parts@.len() == data.len(),
                    self.wf(),
                    data == self.data@,
                    sel == *selection,
                    k < merged.columns@.len(),
                    name@ == gname,
                    gname == merged.columns@[k as int].name@,
                    selected(sel, gname),
                    forall|j: int|
                        0 <= j < data.len() ==> part_ok(#[trigger] parts@[j], data[j], sel),
                    col@ == concat_cells(data.take(i as int), sel, gname),
                decreases parts@.len() - i,
            {
                match &parts[i] {
                    Some(pb) => {
                        proof {
                            assert(part_ok(parts@[i as int], data[i as int], sel));
                            lemma_projection_contributes(*pb, data[i as int], sel);
                        }
                        let ghost src = data[i as int].data;
                        match pb.schema.find_col(name) {
                            Some(ci) => {
                                proof {
                                    lemma_projection_schema_preds(*pb, src, sel);
                                    assert(cols_has(pb.schema.columns@, gname)) by {
                                        assert(pb.schema.columns@[ci as int].name@ == gname);
                                    }
                                    assert(src.has_col(gname));
                                    let c = pb.schema.columns@[ci as int];
                                    assert(pb.columns@[ci as int]@ == src.col_cells(c.name@));
                                    assert(snap_cells(data[i as int], sel, gname) == src.col_cells(
                                        gname,
                                    ));
                                }
                                let mut copied = crate::data::clone_column(&pb.columns[ci]);
                                col.append(&mut copied);
                            },
                            None => {
                                proof {
                                    lemma_projection_schema_preds(*pb, src, sel);
                                    assert(!src.has_col(gname));
                                    assert(snap_cells(data[i as int], sel, gname) == null_cells(
                                        src.n_rows as int,
                                    ));
                                    assert(pb.n_rows == src.n_rows);
                                }
                                let ghost before = col@;
                                let n_pad = pb.n_rows;
                                let mut r: usize = 0;
                                while r < n_pad
                                    invariant
                                        r <= n_pad,
                                        col@.len() == before.len() + r,
                                        forall|m: int| 0 <= m < before.len() ==> col@[m] == before[m],
                                        forall|m: int|
                                            before.len() <= m < col@.len() ==> col@[m] is None,
                                    decreases n_pad - r,
                                {
                                    col.push(None);
                                    r = r + 1;
                                }
                                proof {
                                    assert(col@ =~= before + null_cells(n_pad as int));
                                }
                            },
                        }
                        proof {
                            lemma_take_succ_read(data, sel, i as int, gname);
                        }
                    },
                    None => {
                        proof {
                            assert(part_ok(parts@[i as int], data[i as int], sel));
                            lemma_take_succ_read(data, sel, i as int, gname);
                            assert(snap_cells(data[i as int], sel, gname)
                                =~= Seq::<Option<Value>>::empty());
                            assert(col@ =~= concat_cells(data.take(i + 1), sel, gname));
                        }
                    },
                }
                i = i + 1;
            }
            proof {
                assert(data.take(data.len() as int) =~= data);
            }
            out_cols.push(col);
            k = k + 1;
        }
        let out = RecordBatch { schema: merged, columns: out_cols, n_rows: total };
        proof {
            assert forall|x: int| 0 <= x < out.columns@.len() implies (
            #[trigger] out.columns@[x])@.len() == out.n_rows by {
                lemma_concat_cells_len(data, sel, out.schema.columns@[x].name@);
            }
            assert forall|x: int, r: int|
                0 <= x < out.columns@.len() && 0 <= r < out.n_rows implies crate::data::cell_ok(
                #[trigger] out.columns@[x]@[r],
                out.schema.columns@[x],
            ) by {
                let c = out.schema.columns@[x];
                assert forall|t: crate::schema::ColumnType|
                    #[trigger] source_has_typed(data, sel, c.name@, t) implies t
                    == c.column_type by {
                    assert(source_has_typed(data, sel, c.name@, c.column_type));
                }
                lemma_concat_cells_ok(data, sel, c);
                assert(out.columns@[x]@ == concat_cells(data, sel, c.name@));
            }
            assert(out.wf());
        }
        Ok(out)
    }
}

impl crate::provider::QueryChunk for QueryableBatch {
    open spec fn spec_table_name(&self) -> Seq<char> {
        self.table_name@
    }

    open spec fn spec_id(&self) -> u64 {
        0
    }

    open spec fn spec_may_contain_pk_duplicates(&self) -> bool {
        true
    }

    open spec fn spec_is_sorted_on_pk(&self) -> bool {
        false
    }

    open spec fn spec_delete_predicates(&self) -> Seq<DeletePredicate> {
        self.delete_predicates@
    }

    /// The name of the table this batch belongs to.
    fn table_name(&self) -> (r: &str) {
        self.table_name.as_str()
    }

    /// One shared identifier: queryable batches are not tracked by id.
    fn id(&self) -> (r: u64) {
        0
    }

    /// Always true: in-memory batches are never deduplicated ahead of
    /// query time.
    fn may_contain_pk_duplicates(&self) -> (r: bool) {
        true
    }

    /// Always false: the planner must not assume pre-sortedness.
    fn is_sorted_on_pk(&self) -> (r: bool) {
        false
    }

    /// The delete predicates derived from the tombstones at construction.
    fn delete_predicates(&self) -> (r: &Vec<DeletePredicate>) {
        &self.delete_predicates
    }
}

/// What one projection slot holds: the projected block of the matching
/// snapshot, or nothing when the snapshot has no selected column.
pub open spec fn part_ok(p: Option<RecordBatch>, sb: SnapshotBatch, sel: Selection) -> bool {
    match p {
        Some(pb) => pb.wf() && crate::data::is_projection_of(pb, sb.data, sel)
            && pb.schema.columns@.len() > 0,
        None => !contributes(sb, sel),
    }
}

/// A projection's schema answers every per-name question as its source
/// does, restricted to the selection.
proof fn lemma_projection_schema_preds(pb: RecordBatch, src: RecordBatch, sel: Selection)
    requires
        src.wf(),
        pb.wf(),
        crate::data::is_projection_of(pb, src, sel),
    ensures
        forall|n: Seq<char>|
            #[trigger] cols_has(pb.schema.columns@, n) == (selected(sel, n) && cols_has(
                src.schema.columns@,
                n,
            )),
        forall|n: Seq<char>, t: crate::schema::ColumnType|
            #[trigger] crate::schema::cols_has_typed(pb.schema.columns@, n, t) == (selected(sel, n)
                && crate::schema::cols_has_typed(src.schema.columns@, n, t)),
        forall|n: Seq<char>|
            #[trigger] crate::schema::cols_has_nullable(pb.schema.columns@, n) == (selected(sel, n)
                && crate::schema::cols_has_nullable(src.schema.columns@, n)),
{
    assert forall|n: Seq<char>|
        #[trigger] cols_has(pb.schema.columns@, n) == (selected(sel, n) && cols_has(
            src.schema.columns@,
            n,
        )) by {
        if cols_has(pb.schema.columns@, n) {
            let k = choose|k: int|
                0 <= k < pb.schema.columns@.len() && pb.schema.columns@[k].name@ == n;
            assert(src.has_col(pb.schema.columns@[k].name@) && selected(
                sel,
                pb.schema.columns@[k].name@,
            ));
        }
        if selected(sel, n) && cols_has(src.schema.columns@, n) {
            assert(src.has_col(n));
        }
    }
    assert forall|n: Seq<char>, t: crate::schema::ColumnType|
        #[trigger] crate::schema::cols_has_typed(pb.schema.columns@, n, t) == (selected(sel, n)
            && crate::schema::cols_has_typed(src.schema.columns@, n, t)) by {
        if crate::schema::cols_has_typed(pb.schema.columns@, n, t) {
            let k = choose|k: int|
                0 <= k < pb.schema.columns@.len() && pb.schema.columns@[k].name@ == n
                    && pb.schema.columns@[k].column_type == t;
            assert(selected(sel, pb.schema.columns@[k].name@));
            let j = choose|j: int|
                0 <= j < src.schema.columns@.len() && src.schema.columns@[j]
                    == pb.schema.columns@[k];
            assert(crate::schema::cols_has_typed(src.schema.columns@, n, t)) by {
                assert(src.schema.columns@[j].name@ == n && src.schema.columns@[j].column_type
                    == t);
            }
        }
        if selected(sel, n) && crate::schema::cols_has_typed(src.schema.columns@, n, t) {
            let j = choose|j: int|
                0 <= j < src.schema.columns@.len() && src.schema.columns@[j].name@ == n
                    && src.schema.columns@[j].column_type == t;
            assert(src.has_col(n));
            assert(cols_has(pb.schema.columns@, n));
            let k = choose|k: int|
                0 <= k < pb.schema.columns@.len() && pb.schema.columns@[k].name@ == n;
            let j2 = choose|j2: int|
                0 <= j2 < src.schema.columns@.len() && src.schema.columns@[j2]
                    == pb.schema.columns@[k];
            assert(src.schema.columns@[j2].name@ == n);
            assert(j == j2) by {
                if j != j2 {
                    assert(src.schema.columns@[j].name@ == src.schema.columns@[j2].name@);
                }
            }
            assert(pb.schema.columns@[k].column_type == t);
        }
    }
    assert forall|n: Seq<char>|
        #[trigger] crate::schema::cols_has_nullable(pb.schema.columns@, n) == (selected(sel, n)
            && crate::schema::cols_has_nullable(src.schema.columns@, n)) by {
        if crate::schema::cols_has_nullable(pb.schema.columns@, n) {
            let k = choose|k: int|
                0 <= k < pb.schema.columns@.len() && pb.schema.columns@[k].name@ == n
                    && pb.schema.columns@[k].nullable;
            assert(selected(sel, pb.schema.columns@[k].name@));
            let j = choose|j: int|
                0 <= j < src.schema.columns@.len() && src.schema.columns@[j]
                    == pb.schema.columns@[k];
            assert(crate::schema::cols_has_nullable(src.schema.columns@, n)) by {
                assert(src.schema.columns@[j].name@ == n && src.schema.columns@[j].nullable);
            }
        }
        if selected(sel, n) && crate::schema::cols_has_nullable(src.schema.columns@, n) {
            let j = choose|j: int|
                0 <= j < src.schema.columns@.len() && src.schema.columns@[j].name@ == n
                    && src.schema.columns@[j].nullable;
            assert(src.has_col(n));
            assert(cols_has(pb.schema.columns@, n));
            let k = choose|k: int|
                0 <= k < pb.schema.columns@.len() && pb.schema.columns@[k].name@ == n;
            let j2 = choose|j2: int|
                0 <= j2 < src.schema.columns@.len() && src.schema.columns@[j2]
                    == pb.schema.columns@[k];
            assert(src.schema.columns@[j2].name@ == n);
            assert(j == j2) by {
                if j != j2 {
                    assert(src.schema.columns@[j].name@ == src.schema.columns@[j2].name@);
                }
            }
            assert(pb.schema.columns@[k].nullable);
        }
    }
}

/// A projection with at least one column marks its source as contributing.
proof fn lemma_projection_contributes(pb: RecordBatch, sb: SnapshotBatch, sel: Selection)
    requires
        sb.data.wf(),
        pb.wf(),
        crate::data::is_projection_of(pb, sb.data, sel),
        pb.schema.columns@.len() > 0,
    ensures
        contributes(sb, sel),
{
    let c = pb.schema.columns@[0];
    assert(sb.data.has_col(c.name@) && selected(sel, c.name@));
    let j = choose|j: int|
        0 <= j < sb.data.schema.columns@.len() && sb.data.schema.columns@[j].name@ == c.name@;
    assert(selected(sel, sb.data.schema.columns@[j].name@));
}

/// How the per-name read facts grow when one more snapshot is considered.
proof fn lemma_source_preds_take_succ(
    data: Seq<SnapshotBatch>,
    sel: Selection,
    i: int,
    name: Seq<char>,
)
    requires
        0 <= i < data.len(),
    ensures
        source_has(data.take(i + 1), sel, name) == (source_has(data.take(i), sel, name) || (
        selected(sel, name) && data[i].data.has_col(name))),
        forall|t: crate::schema::ColumnType|
            #[trigger] source_has_typed(data.take(i + 1), sel, name, t) == (source_has_typed(
                data.take(i),
                sel,
                name,
                t,
            ) || (selected(sel, name) && crate::schema::cols_has_typed(
                data[i].data.schema.columns@,
                name,
                t,
            ))),
        source_has_nullable(data.take(i + 1), sel, name) == (source_has_nullable(
            data.take(i),
            sel,
            name,
        ) || (selected(sel, name) && crate::schema::cols_has_nullable(
            data[i].data.schema.columns@,
            name,
        ))),
        source_lacks(data.take(i + 1), sel, name) == (source_lacks(data.take(i), sel, name) || (
        contributes(data[i], sel) && !data[i].data.has_col(name))),
{
    let p1 = data.take(i + 1);
    let p0 = data.take(i);
    assert(forall|j: int| 0 <= j < p1.len() ==> p1[j] == data[j]);
    assert(forall|j: int| 0 <= j < p0.len() ==> p0[j] == data[j]);
    assert(p1[i] == data[i]);
    if source_has(p0, sel, name) {
        let j = choose|j: int| 0 <= j < p0.len() && (#[trigger] p0[j]).data.has_col(name);
        assert(p1[j].data.has_col(name));
    }
    if source_has(p1, sel, name) {
        let j = choose|j: int| 0 <= j < p1.len() && (#[trigger] p1[j]).data.has_col(name);
        if j < i {
            assert(p0[j].data.has_col(name));
        }
    }
    assert forall|t: crate::schema::ColumnType|
        #[trigger] source_has_typed(p1, sel, name, t) == (source_has_typed(p0, sel, name, t) || (
        selected(sel, name) && crate::schema::cols_has_typed(
            data[i].data.schema.columns@,
            name,
            t,
        ))) by {
        if source_has_typed(p0, sel, name, t) {
            let j = choose|j: int|
                0 <= j < p0.len() && crate::schema::cols_has_typed(
                    (#[trigger] p0[j]).data.schema.columns@,
                    name,
                    t,
                );
            assert(crate::schema::cols_has_typed(p1[j].data.schema.columns@, name, t));
        }
        if source_has_typed(p1, sel, name, t) {
            let j = choose|j: int|
                0 <= j < p1.len() && crate::schema::cols_has_typed(
                    (#[trigger] p1[j]).data.schema.columns@,
                    name,
                    t,
                );
            if j < i {
                assert(crate::schema::cols_has_typed(p0[j].data.schema.columns@, name, t));
            }
        }
    }
    if source_has_nullable(p0, sel, name) {
        let j = choose|j: int|
            0 <= j < p0.len() && crate::schema::cols_has_nullable(
                (#[trigger] p0[j]).data.schema.columns@,
                name,
            );
        assert(crate::schema::cols_has_nullable(p1[j].data.schema.columns@, name));
    }
    if source_has_nullable(p1, sel, name) {
        let j = choose|j: int|
            0 <= j < p1.len() && crate::schema::cols_has_nullable(
                (#[trigger] p1[j]).data.schema.columns@,
                name,
            );
        if j < i {
            assert(crate::schema::cols_has_nullable(p0[j].data.schema.columns@, name));
        }
    }
    if source_lacks(p0, sel, name) {
        let j = choose|j: int|
            0 <= j < p0.len() && contributes(#[trigger] p0[j], sel) && !p0[j].data.has_col(name);
        assert(contributes(p1[j], sel) && !p1[j].data.has_col(name));
    }
    if source_lacks(p1, sel, name) {
        let j = choose|j: int|
            0 <= j < p1.len() && contributes(#[trigger] p1[j], sel) && !p1[j].data.has_col(name);
        if j < i {
            assert(contributes(p0[j], sel) && !p0[j].data.has_col(name));
        }
    }
}

} // verus!
