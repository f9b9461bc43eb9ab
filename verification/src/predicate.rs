//! Delete predicates: the parsed, evaluable form of a tombstone.
//!
//! A tombstone carries two decimal nanosecond timestamps and a predicate
//! text, a conjunction of `column op literal` clauses (`op` being `=` or
//! `!=`) joined by ` and `. A row is excluded exactly when its time lies in
//! the inclusive range and every clause is satisfied by its column values;
//! several predicates on one chunk combine with logical OR.

use vstd::prelude::*;
use crate::data::{RecordBatch, Value};
use crate::schema::{ColumnType, spec_time_column_name};
use crate::text::{i64_text_val, parse_i64, str_eq, valid_i64_text};

verus! {

/// Comparison operator of one delete clause.
#[derive(Clone, Copy, Debug, PartialEq, Eq, Structural)]
pub enum Op {
    Eq,
    Ne,
}

/// A literal compared against a column.
#[derive(Debug, PartialEq)]
pub enum Scalar {
    Bool(bool),
    I64(i64),
    Utf8(String),
}

/// An inclusive time range in nanoseconds.
#[derive(Debug, PartialEq)]
pub struct TimestampRange {
    pub start: i64,
    pub end: i64,
}

impl TimestampRange {
    pub fn new(start: i64, end: i64) -> (r: TimestampRange)
        requires
            start <= end,
        ensures
            r.start == start,
            r.end == end,
    {
        TimestampRange { start, end }
    }
}

/// One `column op literal` clause.
#[derive(Debug, PartialEq)]
pub struct DeleteExpr {
    pub column: String,
    pub op: Op,
    pub scalar: Scalar,
}

/// The parsed, evaluable form of a tombstone: a time range and a
/// conjunction of clauses.
#[derive(Debug, PartialEq)]
pub struct DeletePredicate {
    pub range: TimestampRange,
    pub exprs: Vec<DeleteExpr>,
}

/// Mathematical model of a scalar literal.
pub enum ScalarModel {
    Bool(bool),
    I64(int),
    Utf8(Seq<char>),
}

/// Mathematical model of one clause.
pub struct ExprModel {
    pub column: Seq<char>,
    pub op: Op,
    pub scalar: ScalarModel,
}

pub open spec fn scalar_model(s: Scalar) -> ScalarModel {
    match s {
        Scalar::Bool(b) => ScalarModel::Bool(b),
        Scalar::I64(v) => ScalarModel::I64(v as int),
        Scalar::Utf8(t) => ScalarModel::Utf8(t@),
    }
}

pub open spec fn expr_model(e: DeleteExpr) -> ExprModel {
    ExprModel { column: e.column@, op: e.op, scalar: scalar_model(e.scalar) }
}

pub open spec fn exprs_model(es: Seq<DeleteExpr>) -> Seq<ExprModel> {
    es.map_values(|e: DeleteExpr| expr_model(e))
}

/// Model of a whole predicate: its inclusive bounds and its clauses.
pub open spec fn predicate_model(p: DeletePredicate) -> (int, int, Seq<ExprModel>) {
    (p.range.start as int, p.range.end as int, exprs_model(p.exprs@))
}

// --- the grammar of predicate texts ---

/// Characters allowed in a column name: anything but space and the
/// operator characters.
pub open spec fn is_col_char(c: char) -> bool {
    c != ' ' && c != '=' && c != '!'
}

/// Length of the leading run of column characters.
pub open spec fn first_non_col(s: Seq<char>) -> int
    decreases s.len(),
{
    if s.len() == 0 {
        0
    } else if !is_col_char(s[0]) {
        0
    } else {
        1 + first_non_col(s.skip(1))
    }
}

/// A literal is any nonempty run without spaces.
pub open spec fn literal_ok(s: Seq<char>) -> bool {
    s.len() > 0 && forall|i: int| 0 <= i < s.len() ==> s[i] != ' '
}

/// Whether `s` is one well-formed `column op literal` clause.
pub open spec fn valid_clause(s: Seq<char>) -> bool {
    let k = first_non_col(s);
    &&& 0 < k < s.len()
    &&& if s[k] == '=' {
        literal_ok(s.skip(k + 1))
    } else if s[k] == '!' {
        k + 1 < s.len() && s[k + 1] == '=' && literal_ok(s.skip(k + 2))
    } else {
        false
    }
}

/// The literal text of a well-formed clause.
pub open spec fn clause_literal(s: Seq<char>) -> Seq<char> {
    let k = first_non_col(s);
    if s[k] == '=' {
        s.skip(k + 1)
    } else {
        s.skip(k + 2)
    }
}

/// How a literal text is read: `true`/`false` as booleans, a valid decimal
/// as a 64-bit integer, anything else as a string.
pub open spec fn scalar_of(lit: Seq<char>) -> ScalarModel {
    if lit == "true"@ {
        ScalarModel::Bool(true)
    } else if lit == "false"@ {
        ScalarModel::Bool(false)
    } else if valid_i64_text(lit) {
        ScalarModel::I64(i64_text_val(lit))
    } else {
        ScalarModel::Utf8(lit)
    }
}

/// The model of a well-formed clause.
pub open spec fn clause_model(s: Seq<char>) -> ExprModel {
    let k = first_non_col(s);
    ExprModel {
        column: s.take(k),
        op: if s[k] == '=' {
            Op::Eq
        } else {
            Op::Ne
        },
        scalar: scalar_of(clause_literal(s)),
    }
}

/// Whether the conjunction separator ` and ` stands at position `i`.
pub open spec fn is_sep_at(s: Seq<char>, i: int) -> bool {
    &&& 0 <= i
    &&& i + 5 <= s.len()
    &&& s[i] == ' '
    &&& s[i + 1] == 'a'
    &&& s[i + 2] == 'n'
    &&& s[i + 3] == 'd'
    &&& s[i + 4] == ' '
}

/// Position of the first ` and ` separator, or `s.len()` when none occurs.
pub open spec fn find_sep(s: Seq<char>) -> int
    decreases s.len(),
{
    if s.len() < 5 {
        s.len() as int
    } else if is_sep_at(s, 0) {
        0
    } else {
        1 + find_sep(s.skip(1))
    }
}

pub proof fn lemma_find_sep(s: Seq<char>)
    ensures
        0 <= find_sep(s) <= s.len(),
        find_sep(s) < s.len() ==> is_sep_at(s, find_sep(s)),
        forall|j: int| 0 <= j < find_sep(s) ==> !is_sep_at(s, j),
    decreases s.len(),
{
    if s.len() >= 5 && !is_sep_at(s, 0) {
        let tail = s.skip(1);
        lemma_find_sep(tail);
        assert(forall|a: int| 0 <= a < tail.len() ==> tail[a] == s[a + 1]);
        assert(forall|j: int| 0 <= j ==> is_sep_at(tail, j) == is_sep_at(s, j + 1));
        if find_sep(tail) < tail.len() {
            assert(is_sep_at(tail, find_sep(tail)));
            assert(is_sep_at(s, find_sep(s)));
        }
        assert forall|j: int| 0 <= j < find_sep(s) implies !is_sep_at(s, j) by {
            if j > 0 {
                assert(!is_sep_at(tail, j - 1));
            }
        }
    }
}

/// Whether `s` is a well-formed conjunction of clauses.
pub open spec fn valid_predicate_text(s: Seq<char>) -> bool
    decreases s.len(),
    via valid_predicate_text_decreases
{
    let i = find_sep(s);
    if i == s.len() {
        valid_clause(s)
    } else {
        valid_clause(s.take(i)) && valid_predicate_text(s.skip(i + 5))
    }
}

#[via_fn]
proof fn valid_predicate_text_decreases(s: Seq<char>) {
    lemma_find_sep(s);
}

/// The clauses denoted by a well-formed conjunction.
pub open spec fn models_of(s: Seq<char>) -> Seq<ExprModel>
    decreases s.len(),
    via models_of_decreases
{
    let i = find_sep(s);
    if i == s.len() {
        seq![clause_model(s)]
    } else {
        seq![clause_model(s.take(i))] + models_of(s.skip(i + 5))
    }
}

#[via_fn]
proof fn models_of_decreases(s: Seq<char>) {
    lemma_find_sep(s);
}

/// Length of the leading run of column characters, computed on a string.
fn first_non_col_exec(s: &str) -> (r: usize)
    ensures
        r as int == first_non_col(s@),
        r <= s@.len(),
{
    proof {
        lemma_first_non_col(s@);
    }
    let len: usize = s.unicode_len();
    let mut i: usize = 0;
    while i < len
        invariant
            i <= len,
            len == s@.len(),
            forall|j: int| 0 <= j < i ==> is_col_char(s@[j]),
            first_non_col(s@) >= i,
        decreases len - i,
    {
        let c: char = s.get_char(i);
        if c == ' ' || c == '=' || c == '!' {
            proof {
                lemma_first_non_col(s@);
                let k = first_non_col(s@);
                if k > i {
                    assert(is_col_char(s@[i as int]));
                }
            }
            return i;
        }
        proof {
            lemma_first_non_col(s@);
            let k = first_non_col(s@);
            if k == i {
                assert(!is_col_char(s@[k]));
            }
        }
        i = i + 1;
    }
    proof {
        lemma_first_non_col(s@);
    }
    len
}

proof fn lemma_first_non_col(s: Seq<char>)
    ensures
        0 <= first_non_col(s) <= s.len(),
        first_non_col(s) < s.len() ==> !is_col_char(s[first_non_col(s)]),
        forall|j: int| 0 <= j < first_non_col(s) ==> is_col_char(s[j]),
    decreases s.len(),
{
    if s.len() > 0 && is_col_char(s[0]) {
        let tail = s.skip(1);
        lemma_first_non_col(tail);
        assert(forall|a: int| 0 <= a < tail.len() ==> tail[a] == s[a + 1]);
        assert forall|j: int| 0 <= j < first_non_col(s) implies is_col_char(s[j]) by {
            if j > 0 {
                assert(is_col_char(tail[j - 1]));
            }
        }
    }
}

/// Position of the first ` and ` separator, computed on a string.
fn find_sep_exec(s: &str) -> (r: usize)
    ensures
        r as int == find_sep(s@),
        r <= s@.len(),
{
    proof {
        lemma_find_sep(s@);
    }
    let len: usize = s.unicode_len();
    if len < 5 {
        proof {
            if find_sep(s@) < s@.len() {
                assert(is_sep_at(s@, find_sep(s@)));
            }
        }
        return len;
    }
    let mut i: usize = 0;
    while i <= len - 5
        invariant
            i <= len - 4,
            len == s@.len(),
            len >= 5,
            forall|j: int| 0 <= j < i ==> !is_sep_at(s@, j),
            find_sep(s@) >= i,
        decreases len - i,
    {
        let hit = s.get_char(i) == ' ' && s.get_char(i + 1) == 'a' && s.get_char(i + 2) == 'n'
            && s.get_char(i + 3) == 'd' && s.get_char(i + 4) == ' ';
        if hit {
            proof {
                lemma_find_sep(s@);
                assert(is_sep_at(s@, i as int));
                let f = find_sep(s@);
                if f > i {
                    assert(!is_sep_at(s@, i as int));
                }
                if f < i {
                    assert(!is_sep_at(s@, f));
                }
            }
            return i;
        }
        proof {
            lemma_find_sep(s@);
            let f = find_sep(s@);
            if f == i {
                assert(is_sep_at(s@, f));
            }
        }
        i = i + 1;
    }
    proof {
        lemma_find_sep(s@);
        let f = find_sep(s@);
        if f < s@.len() {
            assert(is_sep_at(s@, f));
            assert(f + 5 <= s@.len());
            assert(false);
        }
    }
    len
}

/// Reads a literal: `true`/`false` as booleans, a valid decimal as a
/// 64-bit integer, anything else as a string.
fn scalar_from_literal(lit: &str) -> (r: Scalar)
    ensures
        scalar_model(r) == scalar_of(lit@),
{
    if str_eq(lit, "true") {
        Scalar::Bool(true)
    } else if str_eq(lit, "false") {
        Scalar::Bool(false)
    } else {
        match parse_i64(lit) {
            Some(v) => Scalar::I64(v),
            None => Scalar::Utf8(lit.to_owned()),
        }
    }
}

/// Parses one `column op literal` clause.
fn parse_clause(s: &str) -> (r: Option<DeleteExpr>)
    ensures
        match r {
            Some(e) => valid_clause(s@) && expr_model(e) == clause_model(s@),
            None => !valid_clause(s@),
        },
{
    let len: usize = s.unicode_len();
    let k = first_non_col_exec(s);
    if k == 0 || k == len {
        return None;
    }
    let opc: char = s.get_char(k);
    let op: Op;
    let lit_start: usize;
    if opc == '=' {
        op = Op::Eq;
        lit_start = k + 1;
    } else if opc == '!' {
        if k + 1 == len {
            return None;
        }
        if s.get_char(k + 1) != '=' {
            return None;
        }
        op = Op::Ne;
        lit_start = k + 2;
    } else {
        return None;
    }
    if lit_start >= len {
        proof {
            assert(s@.skip(lit_start as int).len() == 0);
        }
        return None;
    }
    let lit: &str = s.substring_char(lit_start, len);
    proof {
        assert(lit@ =~= s@.skip(lit_start as int));
    }
    if !literal_has_no_space(lit) {
        return None;
    }
    let column: String = s.substring_char(0, k).to_owned();
    let scalar = scalar_from_literal(lit);
    let e = DeleteExpr { column, op, scalar };
    proof {
        assert(literal_ok(s@.skip(lit_start as int)));
        assert(valid_clause(s@));
        assert(clause_literal(s@) == s@.skip(lit_start as int));
        assert(e.column@ =~= s@.take(k as int));
        assert(expr_model(e) == clause_model(s@));
    }
    Some(e)
}

/// Whether a nonempty literal is free of spaces.
fn literal_has_no_space(lit: &str) -> (r: bool)
    requires
        lit@.len() > 0,
    ensures
        r == literal_ok(lit@),
{
    let len: usize = lit.unicode_len();
    let mut j: usize = 0;
    while j < len
        invariant
            j <= len,
            len == lit@.len(),
            forall|m: int| 0 <= m < j ==> lit@[m] != ' ',
        decreases len - j,
    {
        if lit.get_char(j) == ' ' {
            return false;
        }
        j = j + 1;
    }
    true
}

/// Parses a conjunction of clauses joined by ` and `.
pub(crate) fn parse_exprs(s: &str) -> (r: Option<Vec<DeleteExpr>>)
    ensures
        match r {
            Some(v) => valid_predicate_text(s@) && exprs_model(v@) == models_of(s@),
            None => !valid_predicate_text(s@),
        },
    decreases s@.len(),
{
    let len: usize = s.unicode_len();
    let i = find_sep_exec(s);
    if i == len {
        match parse_clause(s) {
            Some(e) => {
                let mut v: Vec<DeleteExpr> = Vec::new();
                v.push(e);
                proof {
                    assert(exprs_model(v@) =~= models_of(s@));
                }
                Some(v)
            },
            None => None,
        }
    } else {
        proof {
            lemma_find_sep(s@);
            assert(is_sep_at(s@, i as int));
        }
        let head: &str = s.substring_char(0, i);
        let tail: &str = s.substring_char(i + 5, len);
        proof {
            assert(head@ =~= s@.take(i as int));
            assert(tail@ =~= s@.skip(i + 5));
        }
        match parse_clause(head) {
            None => None,
            Some(e) => {
                match parse_exprs(tail) {
                    None => None,
                    Some(mut rest) => {
                        let mut v: Vec<DeleteExpr> = Vec::new();
                        v.push(e);
                        v.append(&mut rest);
                        proof {
                            assert(exprs_model(v@) =~= models_of(s@));
                        }
                        Some(v)
                    },
                }
            },
        }
    }
}

/// A filter handed through the chunk interface when reading.
///
/// A queryable batch accepts it for interface compatibility and ignores it:
/// row filtering is the consuming plan's responsibility.
pub struct Predicate {
    pub exprs: Vec<DeleteExpr>,
}

impl Default for Predicate {
    /// A predicate with no clauses.
    fn default() -> (r: Predicate)
        ensures
            r.exprs@.len() == 0,
    {
        Predicate { exprs: Vec::new() }
    }
}

/// Why a tombstone's text could not be turned into a delete predicate.
#[derive(Clone, Copy, Debug, PartialEq, Eq, Structural)]
pub enum ParseError {
    /// The start time is not a decimal 64-bit integer.
    InvalidStartTime,
    /// The stop time is not a decimal 64-bit integer.
    InvalidStopTime,
    /// The start time lies after the stop time.
    InvalidTimeRange,
    /// The predicate text is not a conjunction of `column op literal`
    /// clauses.
    InvalidSyntax,
}

/// Parses a tombstone: two decimal nanosecond timestamps and a predicate
/// text.
///
/// Fails exactly when a timestamp is not a decimal 64-bit integer, when the
/// start lies after the stop, or when the text is not a conjunction of
/// `column op literal` clauses; each failure is told apart by its error.
pub fn parse_delete_predicate(start_time: &str, stop_time: &str, predicate: &str) -> (r: Result<
    DeletePredicate,
    ParseError,
>)
    ensures
        match r {
            Ok(p) => {
                &&& valid_i64_text(start_time@)
                &&& valid_i64_text(stop_time@)
                &&& i64_text_val(start_time@) <= i64_text_val(stop_time@)
                &&& p.range.start as int == i64_text_val(start_time@)
                &&& p.range.end as int == i64_text_val(stop_time@)
                &&& valid_predicate_text(predicate@)
                &&& exprs_model(p.exprs@) == models_of(predicate@)
            },
            Err(ParseError::InvalidStartTime) => !valid_i64_text(start_time@),
            Err(ParseError::InvalidStopTime) => valid_i64_text(start_time@) && !valid_i64_text(
                stop_time@,
            ),
            Err(ParseError::InvalidTimeRange) => valid_i64_text(start_time@) && valid_i64_text(
                stop_time@,
            ) && i64_text_val(start_time@) > i64_text_val(stop_time@),
            Err(ParseError::InvalidSyntax) => valid_i64_text(start_time@) && valid_i64_text(
                stop_time@,
            ) && i64_text_val(start_time@) <= i64_text_val(stop_time@) && !valid_predicate_text(
                predicate@,
            ),
        },
{
    let start = match parse_i64(start_time) {
        Some(v) => v,
        None => {
            return Err(ParseError::InvalidStartTime);
        },
    };
    let stop = match parse_i64(stop_time) {
        Some(v) => v,
        None => {
            return Err(ParseError::InvalidStopTime);
        },
    };
    if start > stop {
        return Err(ParseError::InvalidTimeRange);
    }
    match parse_exprs(predicate) {
        Some(exprs) => Ok(DeletePredicate { range: TimestampRange::new(start, stop), exprs }),
        None => Err(ParseError::InvalidSyntax),
    }
}

// --- evaluation against a row ---

/// Whether a cell value and a scalar are of comparable kinds.
pub open spec fn value_comparable(v: Value, s: Scalar) -> bool {
    match (v, s) {
        (Value::Bool(_), Scalar::Bool(_)) => true,
        (Value::Int64(_), Scalar::I64(_)) => true,
        (Value::Utf8(_), Scalar::Utf8(_)) => true,
        (Value::Tag(_), Scalar::Utf8(_)) => true,
        _ => false,
    }
}

/// Whether a cell value equals a scalar (of a comparable kind).
pub open spec fn value_equals_scalar(v: Value, s: Scalar) -> bool {
    match (v, s) {
        (Value::Bool(a), Scalar::Bool(b)) => a == b,
        (Value::Int64(a), Scalar::I64(b)) => a == b,
        (Value::Utf8(a), Scalar::Utf8(b)) => a@ == b@,
        (Value::Tag(a), Scalar::Utf8(b)) => a@ == b@,
        _ => false,
    }
}

/// Whether one clause holds of a cell: the cell must be present, of a
/// comparable kind, and compare as the operator asks. A null or a value of
/// another kind satisfies no clause, so such a row is kept.
pub open spec fn expr_satisfied(e: DeleteExpr, cell: Option<Value>) -> bool {
    match cell {
        Some(v) => value_comparable(v, e.scalar) && (match e.op {
            Op::Eq => value_equals_scalar(v, e.scalar),
            Op::Ne => !value_equals_scalar(v, e.scalar),
        }),
        None => false,
    }
}

/// The cell of column `name` in row `row`, or null when the batch lacks
/// the column.
pub open spec fn cell_at(batch: RecordBatch, name: Seq<char>, row: int) -> Option<Value> {
    if batch.has_col(name) {
        batch.col_cells(name)[row]
    } else {
        None
    }
}

/// The row's time in nanoseconds; meaningful under [`batch_has_time`].
pub open spec fn time_at(batch: RecordBatch, row: int) -> int {
    match cell_at(batch, spec_time_column_name(), row) {
        Some(v) => match v {
            Value::Timestamp(t) => t as int,
            _ => 0,
        },
        None => 0,
    }
}

/// Whether the batch has the non-nullable `time` column of type timestamp.
pub open spec fn batch_has_time(batch: RecordBatch) -> bool {
    exists|i: int|
        0 <= i < batch.schema.columns@.len() && (#[trigger] batch.schema.columns@[i]).name@
            == spec_time_column_name() && batch.schema.columns@[i].column_type
            == ColumnType::Timestamp && !batch.schema.columns@[i].nullable
}

/// What it means for this predicate to delete a row: the row's time lies in
/// the inclusive range and every clause is satisfied by the row's cells.
pub open spec fn row_deleted_by(p: DeletePredicate, batch: RecordBatch, row: int) -> bool {
    &&& p.range.start <= time_at(batch, row) <= p.range.end
    &&& forall|k: int|
        0 <= k < p.exprs@.len() ==> expr_satisfied(
            #[trigger] p.exprs@[k],
            cell_at(batch, p.exprs@[k].column@, row),
        )
}

/// The time of every row of a batch, in row order.
pub fn batch_times(batch: &RecordBatch) -> (r: Vec<i64>)
    requires
        batch.wf(),
        batch_has_time(*batch),
    ensures
        r@.len() == batch.n_rows,
        forall|j: int| 0 <= j < r@.len() ==> r@[j] as int == time_at(*batch, j),
{
    let tname = crate::schema::time_column_name();
    let ti = match batch.schema.find_col(tname) {
        Some(ti) => ti,
        None => {
            proof {
                let i = choose|i: int|
                    0 <= i < batch.schema.columns@.len() && (#[trigger] batch.schema.columns@[i]).name@
                        == spec_time_column_name() && batch.schema.columns@[i].column_type
                        == ColumnType::Timestamp && !batch.schema.columns@[i].nullable;
                assert(crate::schema::cols_has(batch.schema.columns@, tname@));
                assert(false);
            }
            return Vec::new();
        },
    };
    proof {
        crate::data::lemma_first_index_named(batch.schema.columns@, tname@);
        assert(crate::schema::cols_has(batch.schema.columns@, tname@)) by {
            assert(batch.schema.columns@[ti as int].name@ == tname@);
        }
        let f = crate::data::first_index_named(batch.schema.columns@, tname@);
        assert(f == ti as int) by {
            if f < ti as int {
                assert(batch.schema.columns@[f].name@ != tname@);
            }
        }
        let i = choose|i: int|
            0 <= i < batch.schema.columns@.len() && (#[trigger] batch.schema.columns@[i]).name@
                == spec_time_column_name() && batch.schema.columns@[i].column_type
                == ColumnType::Timestamp && !batch.schema.columns@[i].nullable;
        assert(i == ti as int) by {
            if i != ti as int {
                assert(batch.schema.columns@[i].name@ == batch.schema.columns@[ti as int].name@);
            }
        }
    }
    let mut times: Vec<i64> = Vec::new();
    let mut j: usize = 0;
    while j < batch.n_rows
        invariant
            j <= batch.n_rows,
            batch.wf(),
            ti < batch.schema.columns@.len(),
            batch.schema.columns@[ti as int].name@ == spec_time_column_name(),
            batch.schema.columns@[ti as int].column_type == ColumnType::Timestamp,
            !batch.schema.columns@[ti as int].nullable,
            ti as int == crate::data::first_index_named(
                batch.schema.columns@,
                spec_time_column_name(),
            ),
            times@.len() == j,
            forall|m: int| 0 <= m < j ==> times@[m] as int == time_at(*batch, m),
        decreases batch.n_rows - j,
    {
        proof {
            assert(crate::data::cell_ok(
                batch.columns@[ti as int]@[j as int],
                batch.schema.columns@[ti as int],
            ));
            assert(batch.has_col(spec_time_column_name())) by {
                assert(batch.schema.columns@[ti as int].name@ == spec_time_column_name());
            }
        }
        let t: i64 = match &batch.columns[ti][j] {
            Some(Value::Timestamp(t)) => *t,
            _ => {
                proof {
                    assert(false);
                }
                0
            },
        };
        times.push(t);
        j = j + 1;
    }
    times
}

/// Evaluates one clause against a cell.
fn eval_expr(e: &DeleteExpr, cell: &Option<Value>) -> (r: bool)
    ensures
        r == expr_satisfied(*e, *cell),
{
    match cell {
        None => false,
        Some(v) => {
            let cmp: Option<bool> = match (v, &e.scalar) {
                (Value::Bool(a), Scalar::Bool(b)) => Some(*a == *b),
                (Value::Int64(a), Scalar::I64(b)) => Some(*a == *b),
                (Value::Utf8(a), Scalar::Utf8(b)) => Some(str_eq(a.as_str(), b.as_str())),
                (Value::Tag(a), Scalar::Utf8(b)) => Some(str_eq(a.as_str(), b.as_str())),
                _ => None,
            };
            match cmp {
                None => false,
                Some(eqv) => match e.op {
                    Op::Eq => eqv,
                    Op::Ne => !eqv,
                },
            }
        },
    }
}

impl DeletePredicate {
    /// Whether this predicate deletes row `row` of the batch.
    pub fn row_deleted(&self, batch: &RecordBatch, row: usize) -> (r: bool)
        requires
            batch.wf(),
            row < batch.n_rows,
            batch_has_time(*batch),
        ensures
            r == row_deleted_by(*self, *batch, row as int),
    {
        let tname = crate::schema::time_column_name();
        let ti = match batch.schema.find_col(tname) {
            Some(ti) => ti,
            None => {
                proof {
                    let i = choose|i: int|
                        0 <= i < batch.schema.columns@.len() && (
                        #[trigger] batch.schema.columns@[i]).name@ == spec_time_column_name()
                            && batch.schema.columns@[i].column_type == ColumnType::Timestamp
                            && !batch.schema.columns@[i].nullable;
                    assert(crate::schema::cols_has(batch.schema.columns@, tname@));
                    assert(false);
                }
                return false;
            },
        };
        proof {
            crate::data::lemma_first_index_named(batch.schema.columns@, tname@);
            assert(crate::schema::cols_has(batch.schema.columns@, tname@)) by {
                assert(batch.schema.columns@[ti as int].name@ == tname@);
            }
            let f = crate::data::first_index_named(batch.schema.columns@, tname@);
            assert(f == ti as int) by {
                if f < ti as int {
                    assert(batch.schema.columns@[f].name@ != tname@);
                }
            }
            // the time column is the one batch_has_time names, so its cells
            // are non-null timestamps
            let i = choose|i: int|
                0 <= i < batch.schema.columns@.len() && (#[trigger] batch.schema.columns@[i]).name@
                    == spec_time_column_name() && batch.schema.columns@[i].column_type
                    == ColumnType::Timestamp && !batch.schema.columns@[i].nullable;
            assert(i == ti as int) by {
                if i != ti as int {
                    assert(batch.schema.columns@[i].name@ == batch.schema.columns@[ti as int].name@);
                }
            }
            assert(crate::data::cell_ok(
                batch.columns@[ti as int]@[row as int],
                batch.schema.columns@[ti as int],
            ));
        }
        let t: i64 = match &batch.columns[ti][row] {
            Some(Value::Timestamp(t)) => *t,
            _ => {
                proof {
                    assert(false);
                }
                return false;
            },
        };
        if !(self.range.start <= t && t <= self.range.end) {
            return false;
        }
        let mut k: usize = 0;
        while k < self.exprs.len()
            invariant
                k <= self.exprs@.len(),
                batch.wf(),
                row < batch.n_rows,
                forall|j: int|
                    0 <= j < k ==> expr_satisfied(
                        #[trigger] self.exprs@[j],
                        cell_at(*batch, self.exprs@[j].column@, row as int),
                    ),
            decreases self.exprs@.len() - k,
        {
            let e = &self.exprs[k];
            let none_cell: Option<Value> = None;
            let ghost target = cell_at(*batch, e.column@, row as int);
            let hit: bool;
            match batch.schema.find_col(e.column.as_str()) {
                Some(ci) => {
                    proof {
                        crate::data::lemma_first_index_named(batch.schema.columns@, e.column@);
                        assert(crate::schema::cols_has(batch.schema.columns@, e.column@)) by {
                            assert(batch.schema.columns@[ci as int].name@ == e.column@);
                        }
                        let f = crate::data::first_index_named(batch.schema.columns@, e.column@);
                        assert(f == ci as int) by {
                            if f < ci as int {
                                assert(batch.schema.columns@[f].name@ != e.column@);
                            }
                        }
                        assert(target == batch.columns@[ci as int]@[row as int]);
                    }
                    hit = eval_expr(e, &batch.columns[ci][row]);
                    proof {
                        assert(hit == expr_satisfied(*e, target));
                    }
                },
                None => {
                    hit = eval_expr(e, &none_cell);
                    proof {
                        assert(target is None);
                        assert(hit == expr_satisfied(*e, target));
                    }
                },
            }
            if !hit {
                proof {
                    assert(!expr_satisfied(self.exprs@[k as int], target));
                }
                return false;
            }
            k = k + 1;
        }
        true
    }
}

/// Whether any of several delete predicates deletes row `row`: predicates
/// combine with logical OR at the exclusion level.
pub fn row_deleted_by_any(
    preds: &Vec<DeletePredicate>,
    batch: &RecordBatch,
    row: usize,
) -> (r: bool)
    requires
        batch.wf(),
        row < batch.n_rows,
        batch_has_time(*batch),
    ensures
        r == exists|i: int|
            0 <= i < preds@.len() && row_deleted_by(#[trigger] preds@[i], *batch, row as int),
{
    let mut i: usize = 0;
    while i < preds.len()
        invariant
            i <= preds@.len(),
            batch.wf(),
            row < batch.n_rows,
            batch_has_time(*batch),
            forall|j: int| 0 <= j < i ==> !row_deleted_by(#[trigger] preds@[j], *batch, row as int),
        decreases preds@.len() - i,
    {
        if preds[i].row_deleted(batch, row) {
            proof {
                assert(row_deleted_by(preds@[i as int], *batch, row as int));
            }
            return true;
        }
        i = i + 1;
    }
    false
}

/// Compares one clause's model with another's.
fn expr_equals(a: &DeleteExpr, b: &DeleteExpr) -> (r: bool)
    ensures
        r == (expr_model(*a) == expr_model(*b)),
{
    let cols = str_eq(a.column.as_str(), b.column.as_str());
    let ops = match (a.op, b.op) {
        (Op::Eq, Op::Eq) => true,
        (Op::Ne, Op::Ne) => true,
        _ => false,
    };
    let scalars = match (&a.scalar, &b.scalar) {
        (Scalar::Bool(x), Scalar::Bool(y)) => *x == *y,
        (Scalar::I64(x), Scalar::I64(y)) => *x == *y,
        (Scalar::Utf8(x), Scalar::Utf8(y)) => str_eq(x.as_str(), y.as_str()),
        _ => false,
    };
    cols && ops && scalars
}

impl DeletePredicate {
    /// Whether two predicates have the same bounds and the same clauses.
    pub fn equals(&self, other: &DeletePredicate) -> (r: bool)
        ensures
            r == (predicate_model(*self) == predicate_model(*other)),
    {
        if self.range.start != other.range.start || self.range.end != other.range.end {
            return false;
        }
        if self.exprs.len() != other.exprs.len() {
            proof {
                assert(exprs_model(self.exprs@).len() != exprs_model(other.exprs@).len());
            }
            return false;
        }
        let mut i: usize = 0;
        while i < self.exprs.len()
            invariant
                i <= self.exprs@.len(),
                self.exprs@.len() == other.exprs@.len(),
                forall|j: int|
                    0 <= j < i ==> expr_model(self.exprs@[j]) == expr_model(other.exprs@[j]),
            decreases self.exprs@.len() - i,
        {
            if !expr_equals(&self.exprs[i], &other.exprs[i]) {
                proof {
                    assert(exprs_model(self.exprs@)[i as int] == expr_model(
                        self.exprs@[i as int],
                    ));
                    assert(exprs_model(other.exprs@)[i as int] == expr_model(
                        other.exprs@[i as int],
                    ));
                }
                return false;
            }
            i = i + 1;
        }
        proof {
            assert(exprs_model(self.exprs@) =~= exprs_model(other.exprs@));
        }
        true
    }
}

} // verus!
