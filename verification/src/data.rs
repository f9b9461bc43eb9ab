//! The in-memory columnar data model: cell values, record batches, snapshot
//! batches and tombstones.
//!
//! A record batch holds one column of optional values per schema column;
//! its well-formedness ties every cell to its column's type and
//! nullability. A snapshot batch is an immutable block of rows tagged with
//! the sequence-number range of the writes it holds.

use vstd::prelude::*;
use crate::schema::{cols_has, ColumnDef, ColumnType, Schema, selected, Selection};

verus! {

/// One cell value. `Float64` columns carry no payload in this model, so no
/// variant exists for them; such a column can only hold nulls.
#[derive(Debug, PartialEq)]
pub enum Value {
    Bool(bool),
    Int64(i64),
    UInt32(u32),
    UInt64(u64),
    Utf8(String),
    Tag(String),
    Timestamp(i64),
    Time64(i64),
}

/// Whether a value inhabits a column type.
pub open spec fn value_fits(v: Value, t: ColumnType) -> bool {
    match v {
        Value::Bool(_) => t == ColumnType::Bool,
        Value::Int64(_) => t == ColumnType::Int64,
        Value::UInt32(_) => t == ColumnType::UInt32,
        Value::UInt64(_) => t == ColumnType::UInt64,
        Value::Utf8(_) => t == ColumnType::Utf8,
        Value::Tag(_) => t == ColumnType::Tag,
        Value::Timestamp(_) => t == ColumnType::Timestamp,
        Value::Time64(_) => t == ColumnType::Time64,
    }
}

/// An exact copy of a value.
pub fn clone_value(v: &Value) -> (r: Value)
    ensures
        r == *v,
{
    match v {
        Value::Bool(b) => Value::Bool(*b),
        Value::Int64(x) => Value::Int64(*x),
        Value::UInt32(x) => Value::UInt32(*x),
        Value::UInt64(x) => Value::UInt64(*x),
        Value::Utf8(s) => Value::Utf8(clone_string(s)),
        Value::Tag(s) => Value::Tag(clone_string(s)),
        Value::Timestamp(x) => Value::Timestamp(*x),
        Value::Time64(x) => Value::Time64(*x),
    }
}

fn clone_string(s: &String) -> (r: String)
    ensures
        r == *s,
{
    s.clone()
}

/// An exact copy of an optional value.
pub fn clone_cell(v: &Option<Value>) -> (r: Option<Value>)
    ensures
        r == *v,
{
    match v {
        Some(x) => Some(clone_value(x)),
        None => None,
    }
}

/// An exact copy of a whole column of cells.
pub fn clone_column(col: &Vec<Option<Value>>) -> (r: Vec<Option<Value>>)
    ensures
        r@ == col@,
{
    let mut out: Vec<Option<Value>> = Vec::new();
    let mut i: usize = 0;
    while i < col.len()
        invariant
            i <= col@.len(),
            out@.len() == i,
            forall|j: int| 0 <= j < i ==> out@[j] == col@[j],
        decreases col@.len() - i,
    {
        out.push(clone_cell(&col[i]));
        i = i + 1;
    }
    proof {
        assert(out@ =~= col@);
    }
    out
}

/// An exact copy of a column definition.
pub fn clone_col_def(c: &ColumnDef) -> (r: ColumnDef)
    ensures
        r == *c,
{
    ColumnDef { name: clone_string(&c.name), column_type: c.column_type, nullable: c.nullable }
}

/// An exact copy of a schema's column list.
pub fn clone_schema_cols(s: &Schema) -> (r: Vec<ColumnDef>)
    ensures
        r@ == s.columns@,
{
    let mut cols: Vec<ColumnDef> = Vec::new();
    let mut k: usize = 0;
    while k < s.columns.len()
        invariant
            k <= s.columns@.len(),
            cols@.len() == k,
            forall|m: int| 0 <= m < k ==> cols@[m] == s.columns@[m],
        decreases s.columns@.len() - k,
    {
        cols.push(clone_col_def(&s.columns[k]));
        k = k + 1;
    }
    proof {
        assert(cols@ =~= s.columns@);
    }
    cols
}

/// The smallest index of a column named `name`, or `cols.len()` when none
/// is.
pub open spec fn first_index_named(cols: Seq<ColumnDef>, name: Seq<char>) -> int
    decreases cols.len(),
{
    if cols.len() == 0 {
        0
    } else if cols[0].name@ == name {
        0
    } else {
        1 + first_index_named(cols.skip(1), name)
    }
}

pub proof fn lemma_first_index_named(cols: Seq<ColumnDef>, name: Seq<char>)
    ensures
        cols_has(cols, name) ==> {
            let i = first_index_named(cols, name);
            &&& 0 <= i < cols.len()
            &&& cols[i].name@ == name
            &&& forall|j: int| 0 <= j < i ==> cols[j].name@ != name
        },
        !cols_has(cols, name) ==> first_index_named(cols, name) == cols.len(),
    decreases cols.len(),
{
    if cols.len() > 0 {
        let tail = cols.skip(1);
        lemma_first_index_named(tail, name);
        assert(forall|a: int| 0 <= a < tail.len() ==> tail[a] == cols[a + 1]);
        if cols[0].name@ == name {
            assert(cols_has(cols, name));
        } else {
            if cols_has(cols, name) {
                let i = choose|i: int| 0 <= i < cols.len() && cols[i].name@ == name;
                assert(tail[i - 1].name@ == name);
                assert(cols_has(tail, name));
            }
            if cols_has(tail, name) {
                let a = choose|a: int| 0 <= a < tail.len() && tail[a].name@ == name;
                assert(cols[a + 1].name@ == name);
                assert(cols_has(cols, name));
            }
            if cols_has(cols, name) {
                let fi = first_index_named(cols, name);
                assert(fi == 1 + first_index_named(tail, name));
                assert forall|j: int| 0 <= j < fi implies cols[j].name@ != name by {
                    if j > 0 {
                        assert(tail[j - 1].name@ != name);
                    }
                }
            }
        }
    }
}

/// A block of rows: one column of cells per schema column.
#[derive(Debug, PartialEq)]
pub struct RecordBatch {
    pub schema: Schema,
    pub columns: Vec<Vec<Option<Value>>>,
    pub n_rows: usize,
}

impl RecordBatch {
    /// Well-formedness: one cell column per schema column, all of the same
    /// length, every cell matching its column's type, and nulls only in
    /// nullable columns.
    pub open spec fn wf(&self) -> bool {
        &&& self.schema.wf()
        &&& self.schema.sort_key is None
        &&& self.columns@.len() == self.schema.columns@.len()
        &&& forall|i: int|
            0 <= i < self.columns@.len() ==> (#[trigger] self.columns@[i])@.len() == self.n_rows
        &&& forall|i: int, r: int|
            0 <= i < self.columns@.len() && 0 <= r < self.n_rows ==> cell_ok(
                #[trigger] self.columns@[i]@[r],
                self.schema.columns@[i],
            )
    }

    /// The cells of the column named `name` (meaningful when the schema has
    /// it).
    pub open spec fn col_cells(&self, name: Seq<char>) -> Seq<Option<Value>> {
        self.columns@[first_index_named(self.schema.columns@, name)]@
    }

    /// Whether the schema has a column named `name`.
    pub open spec fn has_col(&self, name: Seq<char>) -> bool {
        cols_has(self.schema.columns@, name)
    }

}

/// Whether a cell fits a column: a value of the column's type, or null in a
/// nullable column.
pub open spec fn cell_ok(cell: Option<Value>, c: ColumnDef) -> bool {
    match cell {
        Some(v) => value_fits(v, c.column_type),
        None => c.nullable,
    }
}

/// An immutable, already-materialized block of rows for one table, tagged
/// with the inclusive sequence-number range of the writes it represents.
pub struct SnapshotBatch {
    pub min_sequence_number: i64,
    pub max_sequence_number: i64,
    pub data: RecordBatch,
}

/// What a projection keeps: exactly the selected columns of the source,
/// with their cells unchanged.
pub open spec fn is_projection_of(b: RecordBatch, src: RecordBatch, sel: Selection) -> bool {
    &&& b.n_rows == src.n_rows
    &&& forall|i: int|
        0 <= i < b.schema.columns@.len() ==> {
            let c = #[trigger] b.schema.columns@[i];
            &&& src.has_col(c.name@)
            &&& selected(sel, c.name@)
            &&& exists|j: int|
                0 <= j < src.schema.columns@.len() && src.schema.columns@[j] == c
            &&& b.columns@[i]@ == src.col_cells(c.name@)
        }
    &&& forall|n: Seq<char>|
        #[trigger] src.has_col(n) && selected(sel, n) ==> cols_has(b.schema.columns@, n)
}

/// A batch whose columns each copy one source column of the same
/// definition is well-formed.
proof fn lemma_projection_wf(b: RecordBatch, src: RecordBatch)
    requires
        src.wf(),
        b.schema.wf(),
        b.schema.sort_key is None,
        b.n_rows == src.n_rows,
        b.columns@.len() == b.schema.columns@.len(),
        forall|k: int|
            0 <= k < b.schema.columns@.len() ==> cols_has(
                src.schema.columns@,
                (#[trigger] b.schema.columns@[k]).name@,
            ),
        forall|k: int|
            0 <= k < b.schema.columns@.len() ==> src.schema.columns@[first_index_named(
                src.schema.columns@,
                (#[trigger] b.schema.columns@[k]).name@,
            )] == b.schema.columns@[k],
        forall|k: int|
            0 <= k < b.schema.columns@.len() ==> b.columns@[k]@ == src.col_cells(
                (#[trigger] b.schema.columns@[k]).name@,
            ),
    ensures
        b.wf(),
{
    assert forall|k: int| 0 <= k < b.columns@.len() implies (#[trigger] b.columns@[k])@.len()
        == b.n_rows by {
        let c = b.schema.columns@[k];
        lemma_first_index_named(src.schema.columns@, c.name@);
        let f = first_index_named(src.schema.columns@, c.name@);
        assert(b.columns@[k]@ == src.columns@[f]@);
        assert(src.columns@[f]@.len() == src.n_rows);
    }
    assert forall|k: int, r: int| 0 <= k < b.columns@.len() && 0 <= r < b.n_rows implies cell_ok(
        #[trigger] b.columns@[k]@[r],
        b.schema.columns@[k],
    ) by {
        let c = b.schema.columns@[k];
        lemma_first_index_named(src.schema.columns@, c.name@);
        let f = first_index_named(src.schema.columns@, c.name@);
        assert(b.columns@[k]@ == src.columns@[f]@);
        assert(src.schema.columns@[f] == c);
        assert(cell_ok(src.columns@[f]@[r], src.schema.columns@[f]));
    }
}

impl SnapshotBatch {
    /// Projects the requested column selection out of this snapshot's rows.
    ///
    /// Returns `None` when the snapshot has none of the requested columns;
    /// no delete filtering happens here (deletes are applied by the
    /// consuming plan).
    pub fn scan(&self, selection: &Selection) -> (r: Option<RecordBatch>)
        requires
            self.data.wf(),
        ensures
            match r {
                Some(b) => b.wf() && is_projection_of(b, self.data, *selection)
                    && b.schema.columns@.len() > 0,
                None => forall|n: Seq<char>|
                    #[trigger] self.data.has_col(n) ==> !selected(*selection, n),
            },
    {
        let src = &self.data;
        let mut defs: Vec<ColumnDef> = Vec::new();
        let mut cells: Vec<Vec<Option<Value>>> = Vec::new();
        let mut i: usize = 0;
        while i < src.schema.columns.len()
            invariant
                i <= src.schema.columns@.len(),
                src == &self.data,
                self.data.wf(),
                defs@.len() == cells@.len(),
                forall|k1: int, k2: int|
                    0 <= k1 < k2 < defs@.len() ==> defs@[k1].name@ != defs@[k2].name@,
                forall|k: int|
                    0 <= k < defs@.len() ==> {
                        let c = #[trigger] defs@[k];
                        &&& selected(*selection, c.name@)
                        &&& exists|j: int|
                            0 <= j < i && src.schema.columns@[j] == c
                        &&& cells@[k]@ == src.col_cells(c.name@)
                    },
                forall|j: int|
                    0 <= j < i && selected(*selection, src.schema.columns@[j].name@) ==> cols_has(
                        defs@,
                        (#[trigger] src.schema.columns@[j]).name@,
                    ),
            decreases src.schema.columns@.len() - i,
        {
            let c = &src.schema.columns[i];
            let ghost old_defs = defs@;
            let wanted = selection.requests(c.name.as_str());
            if wanted {
                proof {
                    // the schema's unique names put this column first for its
                    // own name, and keep it distinct from those gathered so far
                    assert(cols_has(src.schema.columns@, c.name@)) by {
                        assert(src.schema.columns@[i as int].name@ == c.name@);
                    }
                    lemma_first_index_named(src.schema.columns@, c.name@);
                    assert(first_index_named(src.schema.columns@, c.name@) == i as int);
                    assert forall|k: int| 0 <= k < defs@.len() implies defs@[k].name@ != c.name@ by {
                        let j = choose|j: int| 0 <= j < i && src.schema.columns@[j] == defs@[k];
                        assert(src.schema.columns@[j].name@ != src.schema.columns@[i as int].name@);
                    }
                }
                defs.push(clone_col_def(c));
                cells.push(clone_column(&src.columns[i]));
                proof {
                    let k = defs@.len() - 1;
                    assert(defs@[k] == src.schema.columns@[i as int]);
                    assert(cells@[k]@ == src.col_cells(defs@[k].name@));
                }
            }
            proof {
                assert forall|j: int|
                    0 <= j < i + 1 && selected(*selection, src.schema.columns@[j].name@) implies
                    cols_has(defs@, (#[trigger] src.schema.columns@[j]).name@) by {
                    if j < i {
                        let k = choose|k: int|
                            0 <= k < old_defs.len() && old_defs[k].name@
                                == src.schema.columns@[j].name@;
                        assert(defs@[k].name@ == src.schema.columns@[j].name@);
                    } else {
                        assert(wanted);
                        assert(defs@[defs@.len() - 1].name@ == src.schema.columns@[j].name@);
                    }
                }
            }
            i = i + 1;
        }
        if defs.len() == 0 {
            proof {
                assert forall|n: Seq<char>| #[trigger] self.data.has_col(n) implies !selected(
                    *selection,
                    n,
                ) by {
                    if selected(*selection, n) {
                        let j = choose|j: int|
                            0 <= j < src.schema.columns@.len() && src.schema.columns@[j].name@ == n;
                        assert(cols_has(defs@, src.schema.columns@[j].name@));
                    }
                }
            }
            return None;
        }
        let ghost gdefs = defs@;
        let b = RecordBatch {
            schema: Schema { columns: defs, sort_key: None },
            columns: cells,
            n_rows: src.n_rows,
        };
        proof {
            assert(b.schema.columns@ == gdefs);
            assert forall|k: int| 0 <= k < b.schema.columns@.len() implies {
                &&& cols_has(src.schema.columns@, (#[trigger] b.schema.columns@[k]).name@)
                &&& src.schema.columns@[first_index_named(
                    src.schema.columns@,
                    b.schema.columns@[k].name@,
                )] == b.schema.columns@[k]
            } by {
                assert(b.schema.columns@[k] == gdefs[k]);
                let j = choose|j: int| 0 <= j < i && src.schema.columns@[j] == gdefs[k];
                assert(src.schema.columns@[j].name@ == b.schema.columns@[k].name@);
                assert(cols_has(src.schema.columns@, b.schema.columns@[k].name@));
                lemma_first_index_named(src.schema.columns@, b.schema.columns@[k].name@);
                let f = first_index_named(src.schema.columns@, b.schema.columns@[k].name@);
                assert(f == j) by {
                    if f != j {
                        assert(src.schema.columns@[f].name@ == src.schema.columns@[j].name@);
                    }
                }
            }
            lemma_projection_wf(b, *src);
            assert forall|n: Seq<char>| #[trigger] src.has_col(n) && selected(*selection, n)
                implies cols_has(b.schema.columns@, n) by {
                let j = choose|j: int|
                    0 <= j < src.schema.columns@.len() && src.schema.columns@[j].name@ == n;
            }
            assert forall|k: int| 0 <= k < b.schema.columns@.len() implies exists|j: int|
                0 <= j < src.schema.columns@.len() && src.schema.columns@[j]
                    == (#[trigger] b.schema.columns@[k]) by {
                assert(b.schema.columns@[k] == gdefs[k]);
                let j = choose|j: int| 0 <= j < i && src.schema.columns@[j] == gdefs[k];
                assert(0 <= j < src.schema.columns@.len() && src.schema.columns@[j]
                    == b.schema.columns@[k]);
            }
            assert(is_projection_of(b, self.data, *selection));
        }
        Some(b)
    }
}

} // verus!
