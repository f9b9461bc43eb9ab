//! The planning-time column schema model: an ordered list of named, typed,
//! possibly nullable columns, metadata describing the primary key (tag
//! columns plus the time column), and an optional declared sort key.

use vstd::prelude::*;
use crate::text::lex_lt;

verus! {

/// Logical type of a column. Tag columns are dictionary-encoded strings and,
/// together with the time column, form the primary key. `Float64` columns
/// carry no payload in this model; the type participates in schema logic
/// only.
#[derive(Clone, Copy, Debug, PartialEq, Eq, Structural)]
pub enum ColumnType {
    Bool,
    Int64,
    UInt32,
    UInt64,
    Float64,
    Utf8,
    Tag,
    Timestamp,
    Time64,
}

/// One column of a schema.
#[derive(Debug, PartialEq)]
pub struct ColumnDef {
    pub name: String,
    pub column_type: ColumnType,
    pub nullable: bool,
}

/// The parts of a column that contracts speak about.
pub open spec fn col_view(c: ColumnDef) -> (Seq<char>, ColumnType, bool) {
    (c.name@, c.column_type, c.nullable)
}

pub open spec fn cols_view(cols: Seq<ColumnDef>) -> Seq<(Seq<char>, ColumnType, bool)> {
    cols.map_values(|c: ColumnDef| col_view(c))
}

/// Whether some column of `cols` is named `name`.
pub open spec fn cols_has(cols: Seq<ColumnDef>, name: Seq<char>) -> bool {
    exists|i: int| 0 <= i < cols.len() && cols[i].name@ == name
}

/// Whether `cols` holds a column named `name` with type `t`.
pub open spec fn cols_has_typed(cols: Seq<ColumnDef>, name: Seq<char>, t: ColumnType) -> bool {
    exists|i: int| 0 <= i < cols.len() && cols[i].name@ == name && cols[i].column_type == t
}

/// Whether `cols` holds a nullable column named `name`.
pub open spec fn cols_has_nullable(cols: Seq<ColumnDef>, name: Seq<char>) -> bool {
    exists|i: int| 0 <= i < cols.len() && cols[i].name@ == name && cols[i].nullable
}

/// Column names are pairwise distinct.
pub open spec fn cols_unique(cols: Seq<ColumnDef>) -> bool {
    forall|i: int, j: int| 0 <= i < j < cols.len() ==> cols[i].name@ != cols[j].name@
}

/// Columns stand in strictly increasing name order (which implies
/// uniqueness).
pub open spec fn cols_sorted_by_name(cols: Seq<ColumnDef>) -> bool {
    forall|i: int, j: int| 0 <= i < j < cols.len() ==> lex_lt(cols[i].name@, cols[j].name@)
}

/// One entry of a declared sort key: a column with its direction and null
/// ordering.
#[derive(Debug, PartialEq)]
pub struct SortKeyEntry {
    pub column: String,
    pub descending: bool,
    pub nulls_first: bool,
}

pub open spec fn sort_key_entry_view(e: SortKeyEntry) -> (Seq<char>, bool, bool) {
    (e.column@, e.descending, e.nulls_first)
}

/// An ordered sequence of sort-key entries describing how data is or should
/// be arranged.
#[derive(Debug, PartialEq)]
pub struct SortKey {
    pub entries: Vec<SortKeyEntry>,
}

pub open spec fn sort_key_view(k: SortKey) -> Seq<(Seq<char>, bool, bool)> {
    k.entries@.map_values(|e: SortKeyEntry| sort_key_entry_view(e))
}

impl SortKey {
    /// A sort key with no entries yet.
    pub fn with_capacity(n: usize) -> (r: SortKey)
        ensures
            sort_key_view(r) == Seq::<(Seq<char>, bool, bool)>::empty(),
    {
        let r = SortKey { entries: Vec::new() };
        proof {
            assert(sort_key_view(r) =~= Seq::<(Seq<char>, bool, bool)>::empty());
        }
        r
    }

    /// Appends one column with its ordering options.
    pub fn push(&mut self, column: &str, descending: bool, nulls_first: bool)
        ensures
            sort_key_view(*final(self)) == sort_key_view(*old(self)).push(
                (column@, descending, nulls_first),
            ),
    {
        let e = SortKeyEntry { column: column.to_owned(), descending, nulls_first };
        self.entries.push(e);
        proof {
            assert(sort_key_view(*self) =~= sort_key_view(*old(self)).push(
                (column@, descending, nulls_first),
            ));
        }
    }

    /// A copy with the same entries.
    pub fn duplicate(&self) -> (r: SortKey)
        ensures
            sort_key_view(r) == sort_key_view(*self),
    {
        let mut entries: Vec<SortKeyEntry> = Vec::new();
        let mut i: usize = 0;
        while i < self.entries.len()
            invariant
                i <= self.entries.len(),
                entries@.len() == i,
                forall|j: int|
                    0 <= j < i ==> sort_key_entry_view(entries@[j]) == sort_key_entry_view(
                        self.entries@[j],
                    ),
            decreases self.entries.len() - i,
        {
            let e = &self.entries[i];
            entries.push(
                SortKeyEntry {
                    column: e.column.clone(),
                    descending: e.descending,
                    nulls_first: e.nulls_first,
                },
            );
            i = i + 1;
        }
        let r = SortKey { entries };
        proof {
            assert(sort_key_view(r) =~= sort_key_view(*self));
        }
        r
    }

    /// Whether two sort keys list the same columns with the same options in
    /// the same order.
    pub fn matches(&self, other: &SortKey) -> (r: bool)
        ensures
            r == (sort_key_view(*self) == sort_key_view(*other)),
    {
        if self.entries.len() != other.entries.len() {
            proof {
                assert(sort_key_view(*self).len() != sort_key_view(*other).len());
            }
            return false;
        }
        let mut i: usize = 0;
        while i < self.entries.len()
            invariant
                i <= self.entries.len(),
                self.entries@.len() == other.entries@.len(),
                forall|j: int|
                    0 <= j < i ==> sort_key_entry_view(self.entries@[j]) == sort_key_entry_view(
                        other.entries@[j],
                    ),
            decreases self.entries.len() - i,
        {
            let a = &self.entries[i];
            let b = &other.entries[i];
            let same = crate::text::str_eq(a.column.as_str(), b.column.as_str())
                && a.descending == b.descending && a.nulls_first == b.nulls_first;
            if !same {
                proof {
                    assert(sort_key_view(*self)[i as int] == sort_key_entry_view(
                        self.entries@[i as int],
                    ));
                    assert(sort_key_view(*other)[i as int] == sort_key_entry_view(
                        other.entries@[i as int],
                    ));
                }
                return false;
            }
            i = i + 1;
        }
        proof {
            assert(sort_key_view(*self) =~= sort_key_view(*other));
        }
        true
    }
}

/// The name of the designated time column.
pub fn time_column_name() -> (r: &'static str)
    ensures
        r@ == spec_time_column_name(),
{
    "time"
}

pub open spec fn spec_time_column_name() -> Seq<char> {
    "time"@
}

/// A column schema: uniquely named columns plus an optional declared sort
/// key.
#[derive(Debug, PartialEq)]
pub struct Schema {
    pub columns: Vec<ColumnDef>,
    pub sort_key: Option<SortKey>,
}

impl Schema {
    /// Well-formedness: column names are unique within the schema.
    pub open spec fn wf(&self) -> bool {
        cols_unique(self.columns@)
    }

    /// Index of the first column named `name`, if any.
    pub fn find_col(&self, name: &str) -> (r: Option<usize>)
        ensures
            match r {
                Some(i) => i < self.columns@.len() && self.columns@[i as int].name@ == name@
                    && forall|j: int| 0 <= j < i ==> self.columns@[j].name@ != name@,
                None => !cols_has(self.columns@, name@),
            },
    {
        let mut i: usize = 0;
        while i < self.columns.len()
            invariant
                i <= self.columns@.len(),
                forall|j: int| 0 <= j < i ==> self.columns@[j].name@ != name@,
            decreases self.columns@.len() - i,
        {
            if crate::text::str_eq(self.columns[i].name.as_str(), name) {
                return Some(i);
            }
            i = i + 1;
        }
        None
    }

    /// The positions of the named columns, or the first name that is not a
    /// column of this schema.
    ///
    /// Mirrors the select-index computation used when a caller restricts a
    /// scan to named columns.
    pub fn compute_select_indices(&self, names: &Vec<String>) -> (r: Result<Vec<usize>, String>)
        ensures
            match r {
                Ok(idxs) => idxs@.len() == names@.len() && forall|k: int|
                    0 <= k < idxs@.len() ==> idxs@[k] < self.columns@.len()
                        && self.columns@[idxs@[k] as int].name@ == names@[k]@,
                Err(missing) => !cols_has(self.columns@, missing@) && exists|k: int|
                    0 <= k < names@.len() && names@[k]@ == missing@,
            },
    {
        let mut idxs: Vec<usize> = Vec::new();
        let mut k: usize = 0;
        while k < names.len()
            invariant
                k <= names@.len(),
                idxs@.len() == k,
                forall|m: int|
                    0 <= m < k ==> idxs@[m] < self.columns@.len()
                        && self.columns@[idxs@[m] as int].name@ == names@[m]@,
            decreases names@.len() - k,
        {
            match self.find_col(names[k].as_str()) {
                Some(i) => {
                    idxs.push(i);
                },
                None => {
                    return Err(names[k].clone());
                },
            }
            k = k + 1;
        }
        Ok(idxs)
    }
}

/// A column selection handed to a scan: either every column or a named
/// subset.
pub enum Selection {
    All,
    Columns(Vec<String>),
}

/// Whether `name` is requested by the selection.
pub open spec fn selected(sel: Selection, name: Seq<char>) -> bool {
    match sel {
        Selection::All => true,
        Selection::Columns(names) => exists|i: int| 0 <= i < names@.len() && names@[i]@ == name,
    }
}

/// Whether one of `names` has exactly the characters of `name`.
pub fn names_contain(names: &Vec<String>, name: &str) -> (r: bool)
    ensures
        r == exists|i: int| 0 <= i < names@.len() && names@[i]@ == name@,
{
    let mut i: usize = 0;
    while i < names.len()
        invariant
            i <= names@.len(),
            forall|j: int| 0 <= j < i ==> names@[j]@ != name@,
        decreases names@.len() - i,
    {
        if crate::text::str_eq(names[i].as_str(), name) {
            proof {
                assert(0 <= (i as int) < names@.len() && names@[i as int]@ == name@);
            }
            return true;
        }
        i = i + 1;
    }
    false
}

impl Selection {
    /// Whether the selection requests the named column.
    pub fn requests(&self, name: &str) -> (r: bool)
        ensures
            r == selected(*self, name@),
    {
        match self {
            Selection::All => true,
            Selection::Columns(names) => names_contain(names, name),
        }
    }
}

} // verus!
