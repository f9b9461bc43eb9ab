//! The unified schema merger: combines the column schemas of several chunks
//! into one ordered, conflict-checked schema.
//!
//! The merged schema is the union of all columns, ordered lexicographically
//! by name so that merging is independent of input order. A column becomes
//! nullable when any input declares it nullable or any input lacks it. Two
//! inputs declaring one column name with different types is a conflict and
//! fails the merge.

use vstd::prelude::*;
use crate::schema::{
    col_view, cols_has, cols_has_nullable, cols_has_typed, cols_sorted_by_name, cols_unique,
    cols_view, ColumnDef, ColumnType, Schema,
};
use crate::text::{lex_lt, lemma_lex_lt_connected, lemma_lex_lt_irreflexive, lemma_lex_lt_transitive};

verus! {

/// Two inputs declared one column name with two different types; carries the
/// column's name and the two types that clashed.
#[derive(Debug, PartialEq)]
pub struct SchemaConflict {
    pub column: String,
    pub first_type: ColumnType,
    pub second_type: ColumnType,
}

/// Whether some schema of `ss` has a column named `name`.
pub open spec fn some_has(ss: Seq<Schema>, name: Seq<char>) -> bool {
    exists|s: Schema| #[trigger] ss.contains(s) && cols_has(s.columns@, name)
}

/// Whether some schema of `ss` has a column named `name` of type `t`.
pub open spec fn some_has_typed(ss: Seq<Schema>, name: Seq<char>, t: ColumnType) -> bool {
    exists|s: Schema| #[trigger] ss.contains(s) && cols_has_typed(s.columns@, name, t)
}

/// Whether some schema of `ss` has a nullable column named `name`.
pub open spec fn some_has_nullable(ss: Seq<Schema>, name: Seq<char>) -> bool {
    exists|s: Schema| #[trigger] ss.contains(s) && cols_has_nullable(s.columns@, name)
}

/// Whether some schema of `ss` has no column named `name`.
pub open spec fn some_lacks(ss: Seq<Schema>, name: Seq<char>) -> bool {
    exists|s: Schema| #[trigger] ss.contains(s) && !cols_has(s.columns@, name)
}

/// Whether the inputs disagree on the type of the column named `name`.
pub open spec fn conflicting_name(ss: Seq<Schema>, name: Seq<char>) -> bool {
    exists|t1: ColumnType, t2: ColumnType|
        t1 != t2 && #[trigger] some_has_typed(ss, name, t1) && #[trigger] some_has_typed(
            ss,
            name,
            t2,
        )
}

/// Whether any column name is declared with two different types across `ss`.
pub open spec fn has_conflict(ss: Seq<Schema>) -> bool {
    exists|name: Seq<char>| #[trigger] conflicting_name(ss, name)
}

/// What must hold of one column of the merged schema: its type is declared
/// by some input, and it is nullable exactly when some input declares it
/// nullable or some input lacks it.
pub open spec fn merged_col_ok(c: ColumnDef, ss: Seq<Schema>) -> bool {
    &&& some_has_typed(ss, c.name@, c.column_type)
    &&& c.nullable == (some_has_nullable(ss, c.name@) || some_lacks(ss, c.name@))
}

/// What it means for `cols` to be the unified column list of the input
/// schemas `ss`: sorted by name, each column correct per [`merged_col_ok`],
/// and complete (every column name appearing in any input appears here).
pub open spec fn is_merge_of(cols: Seq<ColumnDef>, ss: Seq<Schema>) -> bool {
    &&& cols_sorted_by_name(cols)
    &&& forall|i: int| 0 <= i < cols.len() ==> merged_col_ok(#[trigger] cols[i], ss)
    &&& forall|name: Seq<char>| #[trigger] some_has(ss, name) ==> cols_has(cols, name)
}

/// How many schemas of `ss` have a column named `name`.
pub open spec fn count_having(ss: Seq<Schema>, name: Seq<char>) -> int
    decreases ss.len(),
{
    if ss.len() == 0 {
        0
    } else {
        count_having(ss.drop_last(), name) + if cols_has(ss.last().columns@, name) {
            1int
        } else {
            0int
        }
    }
}

proof fn lemma_count_bounds(ss: Seq<Schema>, name: Seq<char>)
    ensures
        0 <= count_having(ss, name) <= ss.len(),
    decreases ss.len(),
{
    if ss.len() > 0 {
        lemma_count_bounds(ss.drop_last(), name);
    }
}

/// A name no schema has is counted zero times.
proof fn lemma_count_zero(ss: Seq<Schema>, name: Seq<char>)
    requires
        !some_has(ss, name),
    ensures
        count_having(ss, name) == 0,
    decreases ss.len(),
{
    if ss.len() > 0 {
        assert(ss.contains(ss.last()));
        if some_has(ss.drop_last(), name) {
            let s = choose|s: Schema|
                #[trigger] ss.drop_last().contains(s) && cols_has(s.columns@, name);
            let i = choose|i: int| 0 <= i < ss.drop_last().len() && ss.drop_last()[i] == s;
            assert(ss[i] == s);
            assert(ss.contains(s));
        }
        lemma_count_zero(ss.drop_last(), name);
    }
}

/// A schema lacking `name` exists exactly when fewer than all schemas have
/// it.
proof fn lemma_lacks_iff_count(ss: Seq<Schema>, name: Seq<char>)
    ensures
        some_lacks(ss, name) == (count_having(ss, name) < ss.len()),
    decreases ss.len(),
{
    lemma_count_bounds(ss, name);
    if ss.len() == 0 {
        assert(!some_lacks(ss, name));
    } else {
        let butlast = ss.drop_last();
        lemma_lacks_iff_count(butlast, name);
        lemma_count_bounds(butlast, name);
        assert(ss.contains(ss.last()));
        assert forall|s: Schema| butlast.contains(s) implies ss.contains(s) by {
            let i = choose|i: int| 0 <= i < butlast.len() && butlast[i] == s;
            assert(ss[i] == s);
        }
        if some_lacks(butlast, name) {
            assert(some_lacks(ss, name));
        }
        if !cols_has(ss.last().columns@, name) {
            assert(some_lacks(ss, name));
        }
        if some_lacks(ss, name) {
            let s = choose|s: Schema| ss.contains(s) && !cols_has(s.columns@, name);
            let i = choose|i: int| 0 <= i < ss.len() && ss[i] == s;
            if i < ss.len() - 1 {
                assert(butlast[i] == s);
                assert(butlast.contains(s));
                assert(some_lacks(butlast, name));
            } else {
                assert(ss.last() == s);
            }
        }
    }
}

/// How each column-list predicate changes when one column is appended.
proof fn lemma_cols_preds_push(cols: Seq<ColumnDef>, c: ColumnDef, name: Seq<char>)
    ensures
        cols_has(cols.push(c), name) == (cols_has(cols, name) || c.name@ == name),
        forall|t: ColumnType|
            #[trigger] cols_has_typed(cols.push(c), name, t) == (cols_has_typed(cols, name, t) || (
            c.name@ == name && c.column_type == t)),
        cols_has_nullable(cols.push(c), name) == (cols_has_nullable(cols, name) || (c.name@ == name
            && c.nullable)),
{
    let p = cols.push(c);
    assert(p[cols.len() as int] == c);
    assert(forall|i: int| 0 <= i < cols.len() ==> p[i] == cols[i]);
    if cols_has(cols, name) {
        let i = choose|i: int| 0 <= i < cols.len() && cols[i].name@ == name;
        assert(p[i].name@ == name);
    }
    if cols_has(p, name) && !(c.name@ == name) {
        let i = choose|i: int| 0 <= i < p.len() && p[i].name@ == name;
        assert(cols[i].name@ == name);
    }
    assert forall|t: ColumnType|
        #[trigger] cols_has_typed(p, name, t) == (cols_has_typed(cols, name, t) || (c.name@ == name
            && c.column_type == t)) by {
        if cols_has_typed(cols, name, t) {
            let i = choose|i: int|
                0 <= i < cols.len() && cols[i].name@ == name && cols[i].column_type == t;
            assert(p[i].name@ == name && p[i].column_type == t);
        }
        if cols_has_typed(p, name, t) && !(c.name@ == name && c.column_type == t) {
            let i = choose|i: int|
                0 <= i < p.len() && p[i].name@ == name && p[i].column_type == t;
            assert(cols[i].name@ == name && cols[i].column_type == t);
        }
    }
    if cols_has_nullable(cols, name) {
        let i = choose|i: int| 0 <= i < cols.len() && cols[i].name@ == name && cols[i].nullable;
        assert(p[i].name@ == name && p[i].nullable);
    }
    if cols_has_nullable(p, name) && !(c.name@ == name && c.nullable) {
        let i = choose|i: int| 0 <= i < p.len() && p[i].name@ == name && p[i].nullable;
        assert(cols[i].name@ == name && cols[i].nullable);
    }
}

/// How each input-schema predicate changes when one schema is appended.
pub(crate) proof fn lemma_some_preds_push(ss: Seq<Schema>, s: Schema, name: Seq<char>)
    ensures
        some_has(ss.push(s), name) == (some_has(ss, name) || cols_has(s.columns@, name)),
        forall|t: ColumnType|
            #[trigger] some_has_typed(ss.push(s), name, t) == (some_has_typed(ss, name, t)
                || cols_has_typed(s.columns@, name, t)),
        some_has_nullable(ss.push(s), name) == (some_has_nullable(ss, name) || cols_has_nullable(
            s.columns@,
            name,
        )),
        some_lacks(ss.push(s), name) == (some_lacks(ss, name) || !cols_has(s.columns@, name)),
        count_having(ss.push(s), name) == count_having(ss, name) + if cols_has(s.columns@, name) {
            1int
        } else {
            0int
        },
{
    let p = ss.push(s);
    assert(p.last() == s);
    assert(p.drop_last() =~= ss);
    assert(p.contains(s)) by {
        assert(p[ss.len() as int] == s);
    }
    assert forall|x: Schema| ss.contains(x) implies p.contains(x) by {
        let i = choose|i: int| 0 <= i < ss.len() && ss[i] == x;
        assert(p[i] == x);
    }
    assert forall|x: Schema| p.contains(x) implies ss.contains(x) || x == s by {
        let i = choose|i: int| 0 <= i < p.len() && p[i] == x;
        if i < ss.len() {
            assert(ss[i] == x);
        }
    }
    assert forall|t: ColumnType|
        #[trigger] some_has_typed(p, name, t) == (some_has_typed(ss, name, t) || cols_has_typed(
            s.columns@,
            name,
            t,
        )) by {
        if some_has_typed(ss, name, t) {
            let x = choose|x: Schema| ss.contains(x) && cols_has_typed(x.columns@, name, t);
            assert(p.contains(x));
        }
        if some_has_typed(p, name, t) {
            let x = choose|x: Schema| p.contains(x) && cols_has_typed(x.columns@, name, t);
            assert(ss.contains(x) || x == s);
        }
    }
    if some_has(ss, name) {
        let x = choose|x: Schema| ss.contains(x) && cols_has(x.columns@, name);
        assert(p.contains(x));
    }
    if some_has(p, name) {
        let x = choose|x: Schema| p.contains(x) && cols_has(x.columns@, name);
        assert(ss.contains(x) || x == s);
    }
    if some_has_nullable(ss, name) {
        let x = choose|x: Schema| ss.contains(x) && cols_has_nullable(x.columns@, name);
        assert(p.contains(x));
    }
    if some_has_nullable(p, name) {
        let x = choose|x: Schema| p.contains(x) && cols_has_nullable(x.columns@, name);
        assert(ss.contains(x) || x == s);
    }
    if some_lacks(ss, name) {
        let x = choose|x: Schema| ss.contains(x) && !cols_has(x.columns@, name);
        assert(p.contains(x));
    }
    if some_lacks(p, name) {
        let x = choose|x: Schema| p.contains(x) && !cols_has(x.columns@, name);
        assert(ss.contains(x) || x == s);
    }
}

/// One accumulator entry while folding input schemas: the column as merged
/// so far, plus how many schemas have declared it.
struct AccCol {
    name: String,
    column_type: ColumnType,
    nullable: bool,
    seen: usize,
}

spec fn acc_has_name(acc: Seq<AccCol>, name: Seq<char>) -> bool {
    exists|k: int| 0 <= k < acc.len() && acc[k].name@ == name
}

/// One accumulator entry is correct for the inputs `ss` plus the columns
/// `part` of a schema still being folded in.
spec fn mixed_entry_ok(e: AccCol, ss: Seq<Schema>, part: Seq<ColumnDef>) -> bool {
    &&& (some_has_typed(ss, e.name@, e.column_type) || cols_has_typed(
        part,
        e.name@,
        e.column_type,
    ))
    &&& forall|t: ColumnType| #[trigger] some_has_typed(ss, e.name@, t) ==> t == e.column_type
    &&& forall|t: ColumnType| #[trigger] cols_has_typed(part, e.name@, t) ==> t == e.column_type
    &&& e.nullable == (some_has_nullable(ss, e.name@) || cols_has_nullable(part, e.name@))
    &&& e.seen == count_having(ss, e.name@) + if cols_has(part, e.name@) {
        1int
    } else {
        0int
    }
}

/// The accumulator is exactly the merge state of `ss` plus the first columns
/// `part` of a schema being folded in.
spec fn acc_mixed(acc: Seq<AccCol>, ss: Seq<Schema>, part: Seq<ColumnDef>) -> bool {
    &&& forall|k1: int, k2: int| 0 <= k1 < k2 < acc.len() ==> acc[k1].name@ != acc[k2].name@
    &&& forall|k: int| 0 <= k < acc.len() ==> mixed_entry_ok(#[trigger] acc[k], ss, part)
    &&& forall|name: Seq<char>| #[trigger] some_has(ss, name) ==> acc_has_name(acc, name)
    &&& forall|name: Seq<char>| #[trigger] cols_has(part, name) ==> acc_has_name(acc, name)
}

spec fn acc_represents(acc: Seq<AccCol>, ss: Seq<Schema>) -> bool {
    acc_mixed(acc, ss, Seq::<ColumnDef>::empty())
}

/// Folding in every column of `s` leaves the accumulator representing
/// `ss.push(s)`.
proof fn lemma_mixed_to_push(acc: Seq<AccCol>, ss: Seq<Schema>, s: Schema)
    requires
        acc_mixed(acc, ss, s.columns@),
    ensures
        acc_represents(acc, ss.push(s)),
{
    let p = ss.push(s);
    let empty = Seq::<ColumnDef>::empty();
    assert forall|k: int| 0 <= k < acc.len() implies mixed_entry_ok(#[trigger] acc[k], p, empty) by {
        lemma_some_preds_push(ss, s, acc[k].name@);
        assert(mixed_entry_ok(acc[k], ss, s.columns@));
        assert forall|t: ColumnType| #[trigger] some_has_typed(p, acc[k].name@, t) implies t
            == acc[k].column_type by {
            lemma_some_preds_push(ss, s, acc[k].name@);
        }
    }
    assert forall|name: Seq<char>| #[trigger] some_has(p, name) implies acc_has_name(acc, name) by {
        lemma_some_preds_push(ss, s, name);
    }
}

/// A represented input set has no type conflict.
proof fn lemma_represents_no_conflict(acc: Seq<AccCol>, ss: Seq<Schema>)
    requires
        acc_represents(acc, ss),
    ensures
        !has_conflict(ss),
{
    if has_conflict(ss) {
        let name = choose|name: Seq<char>| conflicting_name(ss, name);
        let (t1, t2) = choose|t1: ColumnType, t2: ColumnType|
            t1 != t2 && #[trigger] some_has_typed(ss, name, t1) && #[trigger] some_has_typed(
                ss,
                name,
                t2,
            );
        let s = choose|s: Schema| #[trigger] ss.contains(s) && cols_has_typed(s.columns@, name, t1);
        let i = choose|i: int|
            0 <= i < s.columns@.len() && s.columns@[i].name@ == name && s.columns@[i].column_type
                == t1;
        assert(cols_has(s.columns@, name));
        assert(some_has(ss, name));
        let k = choose|k: int| 0 <= k < acc.len() && acc[k].name@ == name;
        assert(t1 == acc[k].column_type);
        assert(t2 == acc[k].column_type);
    }
}

/// Index of the accumulator entry named `name`, if any.
fn find_acc(acc: &Vec<AccCol>, name: &str) -> (r: Option<usize>)
    ensures
        match r {
            Some(k) => k < acc@.len() && acc@[k as int].name@ == name@,
            None => !acc_has_name(acc@, name@),
        },
{
    let mut k: usize = 0;
    while k < acc.len()
        invariant
            k <= acc@.len(),
            forall|j: int| 0 <= j < k ==> acc@[j].name@ != name@,
        decreases acc@.len() - k,
    {
        if crate::text::str_eq(acc[k].name.as_str(), name) {
            return Some(k);
        }
        k = k + 1;
    }
    None
}

/// Folds one input schema into the accumulator, or reports the first type
/// conflict found.
fn merge_one(acc: &mut Vec<AccCol>, s: &Schema, Ghost(ss): Ghost<Seq<Schema>>) -> (r: Option<
    SchemaConflict,
>)
    requires
        acc_represents(old(acc)@, ss),
        s.wf(),
        ss.len() <= usize::MAX - 1,
    ensures
        match r {
            None => acc_represents(final(acc)@, ss.push(*s)),
            Some(e) => e.first_type != e.second_type && some_has_typed(
                ss.push(*s),
                e.column@,
                e.first_type,
            ) && some_has_typed(ss.push(*s), e.column@, e.second_type),
        },
{
    let ghost full = s.columns@;
    let mut b: usize = 0;
    proof {
        assert(full.take(0) =~= Seq::<ColumnDef>::empty());
    }
    while b < s.columns.len()
        invariant
            b <= s.columns@.len(),
            s.wf(),
            ss.len() <= usize::MAX - 1,
            full == s.columns@,
            acc_mixed(acc@, ss, full.take(b as int)),
        decreases s.columns@.len() - b,
    {
        let ghost part = full.take(b as int);
        let ghost c = full[b as int];
        let cty = s.columns[b].column_type;
        let cnul = s.columns[b].nullable;
        proof {
            // the schema's names are unique, so this column is new to `part`
            assert(!cols_has(part, c.name@)) by {
                if cols_has(part, c.name@) {
                    let j = choose|j: int| 0 <= j < part.len() && part[j].name@ == c.name@;
                    assert(full[j].name@ == full[b as int].name@);
                }
            }
            assert(full.take(b + 1) =~= part.push(c));
        }
        match find_acc(acc, s.columns[b].name.as_str()) {
            Some(k) => {
                let entry_type = acc[k].column_type;
                if entry_type != cty {
                    proof {
                        let n = c.name@;
                        lemma_some_preds_push(ss, *s, n);
                        assert(cols_has_typed(full, n, cty)) by {
                            assert(full[b as int].name@ == n && full[b as int].column_type == cty);
                        }
                        assert(mixed_entry_ok(acc@[k as int], ss, part));
                        if cols_has_typed(part, n, entry_type) {
                            let j = choose|j: int|
                                0 <= j < part.len() && part[j].name@ == n && part[j].column_type
                                    == entry_type;
                            assert(full[j].name@ == n && full[j].column_type == entry_type);
                            assert(cols_has_typed(full, n, entry_type));
                        }
                        assert(some_has_typed(ss.push(*s), n, entry_type));
                        assert(some_has_typed(ss.push(*s), n, cty));
                    }
                    return Some(
                        SchemaConflict {
                            column: s.columns[b].name.clone(),
                            first_type: entry_type,
                            second_type: cty,
                        },
                    );
                }
                proof {
                    assert(mixed_entry_ok(acc@[k as int], ss, part));
                    lemma_count_bounds(ss, acc@[k as int].name@);
                }
                let new_entry = AccCol {
                    name: acc[k].name.clone(),
                    column_type: entry_type,
                    nullable: acc[k].nullable || cnul,
                    seen: acc[k].seen + 1,
                };
                let ghost old_acc = acc@;
                acc[k] = new_entry;
                proof {
                    let part1 = part.push(c);
                    let n = c.name@;
                    assert forall|k2: int| 0 <= k2 < acc@.len() implies mixed_entry_ok(
                        #[trigger] acc@[k2],
                        ss,
                        part1,
                    ) by {
                        lemma_cols_preds_push(part, c, acc@[k2].name@);
                        assert(mixed_entry_ok(old_acc[k2], ss, part));
                        if k2 != k {
                            assert(acc@[k2] == old_acc[k2]);
                            assert(old_acc[k2].name@ != n);
                        }
                    }
                    assert forall|name: Seq<char>| #[trigger] cols_has(part1, name) implies
                        acc_has_name(acc@, name) by {
                        lemma_cols_preds_push(part, c, name);
                        if cols_has(part, name) {
                            let j = choose|j: int|
                                0 <= j < old_acc.len() && old_acc[j].name@ == name;
                            assert(acc@[j].name@ == name);
                        } else {
                            assert(acc@[k as int].name@ == name);
                        }
                    }
                    assert forall|name: Seq<char>| #[trigger] some_has(ss, name) implies
                        acc_has_name(acc@, name) by {
                        let j = choose|j: int| 0 <= j < old_acc.len() && old_acc[j].name@ == name;
                        assert(acc@[j].name@ == name);
                    }
                    assert(acc_mixed(acc@, ss, full.take(b + 1)));
                }
            },
            None => {
                proof {
                    assert(!some_has(ss, c.name@));
                    lemma_count_zero(ss, c.name@);
                }
                let ghost old_acc = acc@;
                acc.push(
                    AccCol {
                        name: s.columns[b].name.clone(),
                        column_type: cty,
                        nullable: cnul,
                        seen: 1,
                    },
                );
                proof {
                    let part1 = part.push(c);
                    let n = c.name@;
                    let newlen = acc@.len() - 1;
                    assert(acc@[newlen] .name@ == n);
                    assert forall|k2: int| 0 <= k2 < acc@.len() implies mixed_entry_ok(
                        #[trigger] acc@[k2],
                        ss,
                        part1,
                    ) by {
                        lemma_cols_preds_push(part, c, acc@[k2].name@);
                        if k2 < newlen {
                            assert(acc@[k2] == old_acc[k2]);
                            assert(mixed_entry_ok(old_acc[k2], ss, part));
                            assert(old_acc[k2].name@ != n);
                        } else {
                            assert(acc@[k2].name@ == n);
                            assert(!cols_has_typed(part, n, acc@[k2].column_type)) by {
                                if cols_has_typed(part, n, acc@[k2].column_type) {
                                    let j = choose|j: int|
                                        0 <= j < part.len() && part[j].name@ == n;
                                    assert(cols_has(part, n));
                                }
                            }
                            assert forall|t: ColumnType| #[trigger] some_has_typed(ss, n, t)
                                implies t == cty by {
                                let x = choose|x: Schema|
                                    #[trigger] ss.contains(x) && cols_has_typed(x.columns@, n, t);
                                let j = choose|j: int|
                                    0 <= j < x.columns@.len() && x.columns@[j].name@ == n
                                        && x.columns@[j].column_type == t;
                                assert(cols_has(x.columns@, n));
                                assert(some_has(ss, n));
                            }
                            assert forall|t: ColumnType| #[trigger] cols_has_typed(part1, n, t)
                                implies t == cty by {
                                lemma_cols_preds_push(part, c, n);
                                if cols_has_typed(part, n, t) {
                                    let j = choose|j: int|
                                        0 <= j < part.len() && part[j].name@ == n;
                                    assert(cols_has(part, n));
                                }
                            }
                            assert(!some_has_nullable(ss, n)) by {
                                if some_has_nullable(ss, n) {
                                    let x = choose|x: Schema|
                                        #[trigger] ss.contains(x) && cols_has_nullable(
                                            x.columns@,
                                            n,
                                        );
                                    let j = choose|j: int|
                                        0 <= j < x.columns@.len() && x.columns@[j].name@ == n
                                            && x.columns@[j].nullable;
                                    assert(cols_has(x.columns@, n));
                                    assert(some_has(ss, n));
                                }
                            }
                            assert(!cols_has_nullable(part, n)) by {
                                if cols_has_nullable(part, n) {
                                    let j = choose|j: int|
                                        0 <= j < part.len() && part[j].name@ == n;
                                    assert(cols_has(part, n));
                                }
                            }
                            lemma_cols_preds_push(part, c, n);
                        }
                    }
                    assert forall|name: Seq<char>| #[trigger] cols_has(part1, name) implies
                        acc_has_name(acc@, name) by {
                        lemma_cols_preds_push(part, c, name);
                        if cols_has(part, name) {
                            let j = choose|j: int|
                                0 <= j < old_acc.len() && old_acc[j].name@ == name;
                            assert(acc@[j].name@ == name);
                        } else {
                            assert(acc@[newlen].name@ == name);
                        }
                    }
                    assert forall|name: Seq<char>| #[trigger] some_has(ss, name) implies
                        acc_has_name(acc@, name) by {
                        let j = choose|j: int| 0 <= j < old_acc.len() && old_acc[j].name@ == name;
                        assert(acc@[j].name@ == name);
                    }
                    assert forall|k1: int, k2: int| 0 <= k1 < k2 < acc@.len() implies acc@[k1].name@
                        != acc@[k2].name@ by {
                        if k2 == newlen {
                            assert(!acc_has_name(old_acc, n));
                        }
                    }
                    assert(acc_mixed(acc@, ss, full.take(b + 1)));
                }
            },
        }
        b = b + 1;
    }
    proof {
        assert(full.take(s.columns@.len() as int) =~= full);
        lemma_mixed_to_push(acc@, ss, *s);
    }
    None
}

/// Arranges merged columns into ascending name order, keeping every
/// column's correctness for the inputs `ss`.
fn sort_cols(input: Vec<ColumnDef>, Ghost(ss): Ghost<Seq<Schema>>) -> (r: Vec<ColumnDef>)
    requires
        cols_unique(input@),
        forall|i: int| 0 <= i < input@.len() ==> merged_col_ok(#[trigger] input@[i], ss),
    ensures
        cols_sorted_by_name(r@),
        forall|i: int| 0 <= i < r@.len() ==> merged_col_ok(#[trigger] r@[i], ss),
        forall|n: Seq<char>| #[trigger] cols_has(r@, n) ==> cols_has(input@, n),
        forall|n: Seq<char>| #[trigger] cols_has(input@, n) ==> cols_has(r@, n),
{
    let mut out: Vec<ColumnDef> = Vec::new();
    let mut i: usize = 0;
    while i < input.len()
        invariant
            i <= input@.len(),
            cols_unique(input@),
            forall|x: int| 0 <= x < input@.len() ==> merged_col_ok(#[trigger] input@[x], ss),
            cols_sorted_by_name(out@),
            forall|x: int| 0 <= x < out@.len() ==> merged_col_ok(#[trigger] out@[x], ss),
            forall|n: Seq<char>|
                #[trigger] cols_has(out@, n) ==> cols_has(input@.take(i as int), n),
            forall|n: Seq<char>|
                #[trigger] cols_has(input@.take(i as int), n) ==> cols_has(out@, n),
        decreases input@.len() - i,
    {
        let c = ColumnDef {
            name: input[i].name.clone(),
            column_type: input[i].column_type,
            nullable: input[i].nullable,
        };
        proof {
            assert(merged_col_ok(input@[i as int], ss));
            assert(c.name@ == input@[i as int].name@);
            assert(merged_col_ok(c, ss));
            assert(!cols_has(input@.take(i as int), c.name@)) by {
                if cols_has(input@.take(i as int), c.name@) {
                    let j = choose|j: int|
                        0 <= j < input@.take(i as int).len() && input@.take(i as int)[j].name@
                            == c.name@;
                    assert(input@[j].name@ == input@[i as int].name@);
                }
            }
            assert(!cols_has(out@, c.name@));
        }
        let mut pos: usize = 0;
        loop
            invariant_except_break
                pos <= out@.len(),
                !cols_has(out@, c.name@),
                forall|j: int| 0 <= j < pos ==> lex_lt(out@[j].name@, c.name@),
            ensures
                pos <= out@.len(),
                forall|j: int| 0 <= j < pos ==> lex_lt(out@[j].name@, c.name@),
                pos < out@.len() ==> lex_lt(c.name@, out@[pos as int].name@),
            decreases out@.len() - pos,
        {
            if pos == out.len() {
                break;
            }
            if crate::text::str_lt(c.name.as_str(), out[pos].name.as_str()) {
                break;
            }
            proof {
                assert(out@[pos as int].name@ != c.name@) by {
                    if out@[pos as int].name@ == c.name@ {
                        assert(cols_has(out@, c.name@));
                    }
                }
                lemma_lex_lt_connected(out@[pos as int].name@, c.name@);
            }
            pos = pos + 1;
        }
        let ghost old_out = out@;
        let ghost cname = c.name@;
        out.insert(pos, c);
        proof {
            old_out.insert_ensures(pos as int, c);
            // order is kept on both sides of the insertion point
            assert forall|a: int, b: int| 0 <= a < b < out@.len() implies lex_lt(
                out@[a].name@,
                out@[b].name@,
            ) by {
                if b < pos {
                } else if a < pos && b == pos {
                    assert(out@[a] == old_out[a]);
                } else if a < pos && b > pos {
                    assert(out@[a] == old_out[a] && out@[b] == old_out[b - 1]);
                } else if a == pos && b > pos {
                    assert(out@[b] == old_out[b - 1]);
                    if b - 1 > pos {
                        lemma_lex_lt_transitive(
                            cname,
                            old_out[pos as int].name@,
                            old_out[b - 1].name@,
                        );
                    }
                } else {
                    assert(out@[a] == old_out[a - 1] && out@[b] == old_out[b - 1]);
                }
            }
            assert forall|x: int| 0 <= x < out@.len() implies merged_col_ok(
                #[trigger] out@[x],
                ss,
            ) by {
                if x < pos {
                    assert(out@[x] == old_out[x]);
                } else if x > pos {
                    assert(out@[x] == old_out[x - 1]);
                }
            }
            assert(input@.take(i + 1) =~= input@.take(i as int).push(input@[i as int]));
            assert forall|n: Seq<char>| #[trigger] cols_has(out@, n) implies cols_has(
                input@.take(i + 1),
                n,
            ) by {
                lemma_cols_preds_push(input@.take(i as int), input@[i as int], n);
                let j = choose|j: int| 0 <= j < out@.len() && out@[j].name@ == n;
                if j < pos {
                    assert(old_out[j].name@ == n);
                    assert(cols_has(old_out, n));
                } else if j > pos {
                    assert(old_out[j - 1].name@ == n);
                    assert(cols_has(old_out, n));
                }
            }
            assert forall|n: Seq<char>| #[trigger] cols_has(input@.take(i + 1), n) implies cols_has(
                out@,
                n,
            ) by {
                lemma_cols_preds_push(input@.take(i as int), input@[i as int], n);
                if cols_has(input@.take(i as int), n) {
                    let j = choose|j: int| 0 <= j < old_out.len() && old_out[j].name@ == n;
                    if j < pos {
                        assert(out@[j].name@ == n);
                    } else {
                        assert(out@[j + 1].name@ == n);
                    }
                } else {
                    assert(out@[pos as int].name@ == n);
                }
            }
        }
        i = i + 1;
    }
    proof {
        assert(input@.take(input@.len() as int) =~= input@);
    }
    out
}

/// Merges the column schemas of several chunks into one unified schema.
///
/// The result's columns are the union of all input columns, in ascending
/// name order; a column is nullable exactly when some input declares it
/// nullable or some input lacks it; the merge fails exactly when two inputs
/// declare one column name with different types, and the error names that
/// column and the two types. The merged schema carries no declared sort key.
pub fn merge(schemas: &Vec<Schema>) -> (r: Result<Schema, SchemaConflict>)
    requires
        forall|i: int| 0 <= i < schemas@.len() ==> (#[trigger] schemas@[i]).wf(),
    ensures
        match r {
            Ok(m) => {
                &&& !has_conflict(schemas@)
                &&& m.wf()
                &&& is_merge_of(m.columns@, schemas@)
                &&& m.sort_key is None
            },
            Err(e) => {
                &&& has_conflict(schemas@)
                &&& conflicting_name(schemas@, e.column@)
                &&& e.first_type != e.second_type
                &&& some_has_typed(schemas@, e.column@, e.first_type)
                &&& some_has_typed(schemas@, e.column@, e.second_type)
            },
        },
{
    let ghost ss = schemas@;
    let mut acc: Vec<AccCol> = Vec::new();
    let mut a: usize = 0;
    proof {
        assert(ss.take(0) =~= Seq::<Schema>::empty());
        assert(acc_represents(acc@, ss.take(0)));
    }
    while a < schemas.len()
        invariant
            a <= schemas@.len(),
            ss == schemas@,
            forall|i: int| 0 <= i < schemas@.len() ==> (#[trigger] schemas@[i]).wf(),
            acc_represents(acc@, ss.take(a as int)),
        decreases schemas@.len() - a,
    {
        let ghost prefix = ss.take(a as int);
        let r = merge_one(&mut acc, &schemas[a], Ghost(prefix));
        proof {
            assert(prefix.push(ss[a as int]) =~= ss.take(a + 1));
        }
        if let Some(e) = r {
            proof {
                let p1 = ss.take(a + 1);
                assert forall|x: Schema| p1.contains(x) implies ss.contains(x) by {
                    let j = choose|j: int| 0 <= j < p1.len() && p1[j] == x;
                    assert(ss[j] == x);
                }
                assert forall|t: ColumnType| #[trigger] some_has_typed(p1, e.column@, t) implies
                    some_has_typed(ss, e.column@, t) by {
                    let x = choose|x: Schema|
                        #[trigger] p1.contains(x) && cols_has_typed(x.columns@, e.column@, t);
                    assert(ss.contains(x));
                }
                assert(conflicting_name(ss, e.column@));
            }
            return Err(e);
        }
        a = a + 1;
    }
    proof {
        assert(ss.take(ss.len() as int) =~= ss);
        lemma_represents_no_conflict(acc@, ss);
    }
    // fix up nullability: a column some schema lacks becomes nullable
    let n_schemas = schemas.len();
    let mut cols: Vec<ColumnDef> = Vec::new();
    let mut k: usize = 0;
    while k < acc.len()
        invariant
            k <= acc@.len(),
            ss == schemas@,
            n_schemas == ss.len(),
            acc_represents(acc@, ss),
            cols@.len() == k,
            forall|j: int| 0 <= j < k ==> merged_col_ok(#[trigger] cols@[j], ss),
            forall|j: int| 0 <= j < k ==> cols@[j].name@ == acc@[j].name@,
        decreases acc@.len() - k,
    {
        let lacked = acc[k].seen < n_schemas;
        proof {
            assert(mixed_entry_ok(acc@[k as int], ss, Seq::<ColumnDef>::empty()));
            lemma_lacks_iff_count(ss, acc@[k as int].name@);
        }
        cols.push(
            ColumnDef {
                name: acc[k].name.clone(),
                column_type: acc[k].column_type,
                nullable: acc[k].nullable || lacked,
            },
        );
        k = k + 1;
    }
    proof {
        assert(cols_unique(cols@));
        assert forall|name: Seq<char>| #[trigger] some_has(ss, name) implies cols_has(
            cols@,
            name,
        ) by {
            let j = choose|j: int| 0 <= j < acc@.len() && acc@[j].name@ == name;
            assert(cols@[j].name@ == name);
        }
    }
    let sorted = sort_cols(cols, Ghost(ss));
    proof {
        assert forall|name: Seq<char>| #[trigger] some_has(ss, name) implies cols_has(
            sorted@,
            name,
        ) by {
        }
        assert forall|i1: int, i2: int| 0 <= i1 < i2 < sorted@.len() implies sorted@[i1].name@
            != sorted@[i2].name@ by {
            if sorted@[i1].name@ == sorted@[i2].name@ {
                lemma_lex_lt_irreflexive(sorted@[i1].name@);
            }
        }
    }
    Ok(Schema { columns: sorted, sort_key: None })
}

pub(crate) proof fn lemma_typed_implies_has(ss: Seq<Schema>, name: Seq<char>, t: ColumnType)
    requires
        some_has_typed(ss, name, t),
    ensures
        some_has(ss, name),
{
    let s = choose|s: Schema| #[trigger] ss.contains(s) && cols_has_typed(s.columns@, name, t);
    let i = choose|i: int|
        0 <= i < s.columns@.len() && s.columns@[i].name@ == name && s.columns@[i].column_type == t;
    assert(cols_has(s.columns@, name));
}

proof fn lemma_multiset_same_contains(ss1: Seq<Schema>, ss2: Seq<Schema>)
    requires
        ss1.to_multiset() == ss2.to_multiset(),
    ensures
        forall|x: Schema| ss1.contains(x) == ss2.contains(x),
{
    ss1.to_multiset_ensures();
    ss2.to_multiset_ensures();
    assert forall|x: Schema| ss1.contains(x) == ss2.contains(x) by {
        assert(ss1.contains(x) <==> ss1.to_multiset().count(x) > 0);
        assert(ss2.contains(x) <==> ss2.to_multiset().count(x) > 0);
    }
}

proof fn lemma_same_contains_same_preds(ss1: Seq<Schema>, ss2: Seq<Schema>)
    requires
        forall|x: Schema| ss1.contains(x) == ss2.contains(x),
    ensures
        forall|n: Seq<char>| #[trigger] some_has(ss1, n) == some_has(ss2, n),
        forall|n: Seq<char>, t: ColumnType|
            #[trigger] some_has_typed(ss1, n, t) == some_has_typed(ss2, n, t),
        forall|n: Seq<char>| #[trigger] some_has_nullable(ss1, n) == some_has_nullable(ss2, n),
        forall|n: Seq<char>| #[trigger] some_lacks(ss1, n) == some_lacks(ss2, n),
{
    assert forall|n: Seq<char>| #[trigger] some_has(ss1, n) == some_has(ss2, n) by {
        if some_has(ss1, n) {
            let s = choose|s: Schema| #[trigger] ss1.contains(s) && cols_has(s.columns@, n);
            assert(ss2.contains(s));
        }
        if some_has(ss2, n) {
            let s = choose|s: Schema| #[trigger] ss2.contains(s) && cols_has(s.columns@, n);
            assert(ss1.contains(s));
        }
    }
    assert forall|n: Seq<char>, t: ColumnType|
        #[trigger] some_has_typed(ss1, n, t) == some_has_typed(ss2, n, t) by {
        if some_has_typed(ss1, n, t) {
            let s = choose|s: Schema| #[trigger] ss1.contains(s) && cols_has_typed(s.columns@, n, t);
            assert(ss2.contains(s));
        }
        if some_has_typed(ss2, n, t) {
            let s = choose|s: Schema| #[trigger] ss2.contains(s) && cols_has_typed(s.columns@, n, t);
            assert(ss1.contains(s));
        }
    }
    assert forall|n: Seq<char>| #[trigger] some_has_nullable(ss1, n) == some_has_nullable(
        ss2,
        n,
    ) by {
        if some_has_nullable(ss1, n) {
            let s = choose|s: Schema|
                #[trigger] ss1.contains(s) && cols_has_nullable(s.columns@, n);
            assert(ss2.contains(s));
        }
        if some_has_nullable(ss2, n) {
            let s = choose|s: Schema|
                #[trigger] ss2.contains(s) && cols_has_nullable(s.columns@, n);
            assert(ss1.contains(s));
        }
    }
    assert forall|n: Seq<char>| #[trigger] some_lacks(ss1, n) == some_lacks(ss2, n) by {
        if some_lacks(ss1, n) {
            let s = choose|s: Schema| #[trigger] ss1.contains(s) && !cols_has(s.columns@, n);
            assert(ss2.contains(s));
        }
        if some_lacks(ss2, n) {
            let s = choose|s: Schema| #[trigger] ss2.contains(s) && !cols_has(s.columns@, n);
            assert(ss1.contains(s));
        }
    }
}

/// Schemas that agree column-for-column support the same merge facts, so a
/// merge may work on copies of its inputs.
pub proof fn lemma_same_views_same_preds(ss1: Seq<Schema>, ss2: Seq<Schema>)
    requires
        ss1.len() == ss2.len(),
        forall|i: int| 0 <= i < ss1.len() ==> ss1[i].columns@ == ss2[i].columns@,
    ensures
        forall|n: Seq<char>| #[trigger] some_has(ss1, n) == some_has(ss2, n),
        forall|n: Seq<char>, t: ColumnType|
            #[trigger] some_has_typed(ss1, n, t) == some_has_typed(ss2, n, t),
        forall|n: Seq<char>| #[trigger] some_has_nullable(ss1, n) == some_has_nullable(ss2, n),
        forall|n: Seq<char>| #[trigger] some_lacks(ss1, n) == some_lacks(ss2, n),
        has_conflict(ss1) == has_conflict(ss2),
        forall|n: Seq<char>| #[trigger] conflicting_name(ss1, n) == conflicting_name(ss2, n),
        forall|c: ColumnDef| #[trigger] merged_col_ok(c, ss1) == merged_col_ok(c, ss2),
        forall|cols: Seq<ColumnDef>| #[trigger] is_merge_of(cols, ss1) == is_merge_of(cols, ss2),
{
    assert forall|n: Seq<char>| #[trigger] some_has(ss1, n) == some_has(ss2, n) by {
        if some_has(ss1, n) {
            let s = choose|s: Schema| #[trigger] ss1.contains(s) && cols_has(s.columns@, n);
            let i = choose|i: int| 0 <= i < ss1.len() && ss1[i] == s;
            assert(ss2.contains(ss2[i]));
            assert(ss2[i].columns@ == s.columns@);
        }
        if some_has(ss2, n) {
            let s = choose|s: Schema| #[trigger] ss2.contains(s) && cols_has(s.columns@, n);
            let i = choose|i: int| 0 <= i < ss2.len() && ss2[i] == s;
            assert(ss1.contains(ss1[i]));
            assert(ss1[i].columns@ == s.columns@);
        }
    }
    assert forall|n: Seq<char>, t: ColumnType|
        #[trigger] some_has_typed(ss1, n, t) == some_has_typed(ss2, n, t) by {
        if some_has_typed(ss1, n, t) {
            let s = choose|s: Schema| #[trigger] ss1.contains(s) && cols_has_typed(s.columns@, n, t);
            let i = choose|i: int| 0 <= i < ss1.len() && ss1[i] == s;
            assert(ss2.contains(ss2[i]));
            assert(ss2[i].columns@ == s.columns@);
        }
        if some_has_typed(ss2, n, t) {
            let s = choose|s: Schema| #[trigger] ss2.contains(s) && cols_has_typed(s.columns@, n, t);
            let i = choose|i: int| 0 <= i < ss2.len() && ss2[i] == s;
            assert(ss1.contains(ss1[i]));
            assert(ss1[i].columns@ == s.columns@);
        }
    }
    assert forall|n: Seq<char>| #[trigger] some_has_nullable(ss1, n) == some_has_nullable(
        ss2,
        n,
    ) by {
        if some_has_nullable(ss1, n) {
            let s = choose|s: Schema|
                #[trigger] ss1.contains(s) && cols_has_nullable(s.columns@, n);
            let i = choose|i: int| 0 <= i < ss1.len() && ss1[i] == s;
            assert(ss2.contains(ss2[i]));
            assert(ss2[i].columns@ == s.columns@);
        }
        if some_has_nullable(ss2, n) {
            let s = choose|s: Schema|
                #[trigger] ss2.contains(s) && cols_has_nullable(s.columns@, n);
            let i = choose|i: int| 0 <= i < ss2.len() && ss2[i] == s;
            assert(ss1.contains(ss1[i]));
            assert(ss1[i].columns@ == s.columns@);
        }
    }
    assert forall|n: Seq<char>| #[trigger] some_lacks(ss1, n) == some_lacks(ss2, n) by {
        if some_lacks(ss1, n) {
            let s = choose|s: Schema| #[trigger] ss1.contains(s) && !cols_has(s.columns@, n);
            let i = choose|i: int| 0 <= i < ss1.len() && ss1[i] == s;
            assert(ss2.contains(ss2[i]));
            assert(ss2[i].columns@ == s.columns@);
        }
        if some_lacks(ss2, n) {
            let s = choose|s: Schema| #[trigger] ss2.contains(s) && !cols_has(s.columns@, n);
            let i = choose|i: int| 0 <= i < ss2.len() && ss2[i] == s;
            assert(ss1.contains(ss1[i]));
            assert(ss1[i].columns@ == s.columns@);
        }
    }
    assert forall|n: Seq<char>| #[trigger] conflicting_name(ss1, n) == conflicting_name(
        ss2,
        n,
    ) by {
        if conflicting_name(ss1, n) {
            let (t1, t2) = choose|t1: ColumnType, t2: ColumnType|
                t1 != t2 && #[trigger] some_has_typed(ss1, n, t1) && #[trigger] some_has_typed(
                    ss1,
                    n,
                    t2,
                );
            assert(some_has_typed(ss2, n, t1) && some_has_typed(ss2, n, t2));
        }
        if conflicting_name(ss2, n) {
            let (t1, t2) = choose|t1: ColumnType, t2: ColumnType|
                t1 != t2 && #[trigger] some_has_typed(ss2, n, t1) && #[trigger] some_has_typed(
                    ss2,
                    n,
                    t2,
                );
            assert(some_has_typed(ss1, n, t1) && some_has_typed(ss1, n, t2));
        }
    }
    if has_conflict(ss1) {
        let n = choose|n: Seq<char>| conflicting_name(ss1, n);
        assert(conflicting_name(ss2, n));
    }
    if has_conflict(ss2) {
        let n = choose|n: Seq<char>| conflicting_name(ss2, n);
        assert(conflicting_name(ss1, n));
    }
    assert forall|cols: Seq<ColumnDef>| #[trigger] is_merge_of(cols, ss1) == is_merge_of(
        cols,
        ss2,
    ) by {
        if is_merge_of(cols, ss1) {
            assert forall|name: Seq<char>| #[trigger] some_has(ss2, name) implies cols_has(
                cols,
                name,
            ) by {
                assert(some_has(ss1, name));
            }
            assert(is_merge_of(cols, ss2));
        }
        if is_merge_of(cols, ss2) {
            assert forall|name: Seq<char>| #[trigger] some_has(ss1, name) implies cols_has(
                cols,
                name,
            ) by {
                assert(some_has(ss2, name));
            }
            assert(is_merge_of(cols, ss1));
        }
    }
}

/// Reordering the input schemas can neither hide nor create a type
/// conflict.
pub proof fn lemma_conflict_permutation_invariant(ss1: Seq<Schema>, ss2: Seq<Schema>)
    requires
        ss1.to_multiset() == ss2.to_multiset(),
    ensures
        has_conflict(ss1) == has_conflict(ss2),
{
    lemma_multiset_same_contains(ss1, ss2);
    lemma_same_contains_same_preds(ss1, ss2);
    if has_conflict(ss1) {
        let n = choose|n: Seq<char>| conflicting_name(ss1, n);
        assert(conflicting_name(ss2, n)) by {
            let (t1, t2) = choose|t1: ColumnType, t2: ColumnType|
                t1 != t2 && #[trigger] some_has_typed(ss1, n, t1) && #[trigger] some_has_typed(
                    ss1,
                    n,
                    t2,
                );
            assert(some_has_typed(ss2, n, t1) && some_has_typed(ss2, n, t2));
        }
    }
    if has_conflict(ss2) {
        let n = choose|n: Seq<char>| conflicting_name(ss2, n);
        assert(conflicting_name(ss1, n)) by {
            let (t1, t2) = choose|t1: ColumnType, t2: ColumnType|
                t1 != t2 && #[trigger] some_has_typed(ss2, n, t1) && #[trigger] some_has_typed(
                    ss2,
                    n,
                    t2,
                );
            assert(some_has_typed(ss1, n, t1) && some_has_typed(ss1, n, t2));
        }
    }
}

/// Two sorted column lists with the same names, and identical type and
/// nullability per name, are identical.
proof fn lemma_sorted_same_names_equal(c1: Seq<ColumnDef>, c2: Seq<ColumnDef>)
    requires
        cols_sorted_by_name(c1),
        cols_sorted_by_name(c2),
        forall|n: Seq<char>| #[trigger] cols_has(c1, n) ==> cols_has(c2, n),
        forall|n: Seq<char>| #[trigger] cols_has(c2, n) ==> cols_has(c1, n),
        forall|i: int, j: int|
            0 <= i < c1.len() && 0 <= j < c2.len() && c1[i].name@ == c2[j].name@ ==> c1[i].column_type
                == c2[j].column_type && c1[i].nullable == c2[j].nullable,
    ensures
        cols_view(c1) == cols_view(c2),
    decreases c1.len(),
{
    if c1.len() == 0 {
        if c2.len() > 0 {
            assert(cols_has(c2, c2[0].name@));
        }
        assert(cols_view(c1) =~= cols_view(c2));
    } else if c2.len() == 0 {
        assert(cols_has(c1, c1[0].name@));
    } else {
        assert(cols_has(c1, c1[0].name@));
        assert(cols_has(c2, c2[0].name@));
        if c1[0].name@ != c2[0].name@ {
            let j = choose|j: int| 0 <= j < c2.len() && c2[j].name@ == c1[0].name@;
            let i = choose|i: int| 0 <= i < c1.len() && c1[i].name@ == c2[0].name@;
            assert(j > 0);
            assert(i > 0);
            assert(lex_lt(c2[0].name@, c2[j].name@));
            assert(lex_lt(c1[0].name@, c1[i].name@));
            lemma_lex_lt_connected(c1[0].name@, c2[0].name@);
        }
        let t1 = c1.skip(1);
        let t2 = c2.skip(1);
        assert(forall|a: int| 0 <= a < t1.len() ==> t1[a] == c1[a + 1]);
        assert(forall|a: int| 0 <= a < t2.len() ==> t2[a] == c2[a + 1]);
        assert forall|a: int, b: int| 0 <= a < b < t1.len() implies lex_lt(
            t1[a].name@,
            t1[b].name@,
        ) by {
            assert(lex_lt(c1[a + 1].name@, c1[b + 1].name@));
        }
        assert forall|a: int, b: int| 0 <= a < b < t2.len() implies lex_lt(
            t2[a].name@,
            t2[b].name@,
        ) by {
            assert(lex_lt(c2[a + 1].name@, c2[b + 1].name@));
        }
        assert forall|n: Seq<char>| #[trigger] cols_has(t1, n) implies cols_has(t2, n) by {
            let a = choose|a: int| 0 <= a < t1.len() && t1[a].name@ == n;
            assert(c1[a + 1].name@ == n);
            assert(lex_lt(c1[0].name@, c1[a + 1].name@));
            if n == c1[0].name@ {
                lemma_lex_lt_irreflexive(n);
            }
            assert(cols_has(c1, n));
            assert(cols_has(c2, n));
            let j = choose|j: int| 0 <= j < c2.len() && c2[j].name@ == n;
            assert(j > 0);
            assert(t2[j - 1].name@ == n);
        }
        assert forall|n: Seq<char>| #[trigger] cols_has(t2, n) implies cols_has(t1, n) by {
            let a = choose|a: int| 0 <= a < t2.len() && t2[a].name@ == n;
            assert(c2[a + 1].name@ == n);
            assert(lex_lt(c2[0].name@, c2[a + 1].name@));
            if n == c2[0].name@ {
                lemma_lex_lt_irreflexive(n);
            }
            assert(cols_has(c2, n));
            assert(cols_has(c1, n));
            let i = choose|i: int| 0 <= i < c1.len() && c1[i].name@ == n;
            assert(i > 0);
            assert(t1[i - 1].name@ == n);
        }
        lemma_sorted_same_names_equal(t1, t2);
        assert(cols_view(t1).len() == t1.len());
        assert(cols_view(t2).len() == t2.len());
        assert(c1.len() == c2.len());
        assert forall|x: int| 0 <= x < c1.len() implies cols_view(c1)[x] == cols_view(c2)[x] by {
            if x == 0 {
                assert(cols_view(c1)[0] == col_view(c1[0]));
                assert(cols_view(c2)[0] == col_view(c2[0]));
            } else {
                assert(cols_view(t1)[x - 1] == cols_view(t2)[x - 1]);
                assert(cols_view(t1)[x - 1] == col_view(t1[x - 1]));
                assert(cols_view(t2)[x - 1] == col_view(t2[x - 1]));
                assert(t1[x - 1] == c1[x]);
                assert(t2[x - 1] == c2[x]);
                assert(cols_view(c1)[x] == col_view(c1[x]));
                assert(cols_view(c2)[x] == col_view(c2[x]));
            }
        }
        assert(cols_view(c1) =~= cols_view(c2));
    }
}

/// Schema merge is commutative: merging the input schemas in any order
/// yields the identical unified column list — same columns, same order,
/// same types and nullability.
pub proof fn lemma_merge_commutative(
    ss1: Seq<Schema>,
    ss2: Seq<Schema>,
    m1: Seq<ColumnDef>,
    m2: Seq<ColumnDef>,
)
    requires
        ss1.to_multiset() == ss2.to_multiset(),
        !has_conflict(ss1),
        is_merge_of(m1, ss1),
        is_merge_of(m2, ss2),
    ensures
        cols_view(m1) == cols_view(m2),
{
    lemma_multiset_same_contains(ss1, ss2);
    lemma_same_contains_same_preds(ss1, ss2);
    assert forall|n: Seq<char>| #[trigger] cols_has(m1, n) implies cols_has(m2, n) by {
        let i = choose|i: int| 0 <= i < m1.len() && m1[i].name@ == n;
        assert(merged_col_ok(m1[i], ss1));
        lemma_typed_implies_has(ss1, n, m1[i].column_type);
        assert(some_has(ss2, n));
    }
    assert forall|n: Seq<char>| #[trigger] cols_has(m2, n) implies cols_has(m1, n) by {
        let j = choose|j: int| 0 <= j < m2.len() && m2[j].name@ == n;
        assert(merged_col_ok(m2[j], ss2));
        lemma_typed_implies_has(ss2, n, m2[j].column_type);
        assert(some_has(ss1, n));
    }
    assert forall|i: int, j: int|
        0 <= i < m1.len() && 0 <= j < m2.len() && m1[i].name@ == m2[j].name@ implies m1[i].column_type
        == m2[j].column_type && m1[i].nullable == m2[j].nullable by {
        let n = m1[i].name@;
        assert(merged_col_ok(m1[i], ss1));
        assert(merged_col_ok(m2[j], ss2));
        assert(some_has_typed(ss1, n, m2[j].column_type));
        if m1[i].column_type != m2[j].column_type {
            assert(conflicting_name(ss1, n));
            assert(has_conflict(ss1));
        }
    }
    lemma_sorted_same_names_equal(m1, m2);
}

/// Nullability widening: when some input has a column and some input lacks
/// it, the unified schema reports that column nullable.
pub proof fn lemma_nullability_widening(ss: Seq<Schema>, m: Seq<ColumnDef>, name: Seq<char>)
    requires
        is_merge_of(m, ss),
        some_has(ss, name),
        some_lacks(ss, name),
    ensures
        cols_has_nullable(m, name),
{
    assert(cols_has(m, name));
    let i = choose|i: int| 0 <= i < m.len() && m[i].name@ == name;
    assert(merged_col_ok(m[i], ss));
    assert(m[i].nullable);
}

} // verus!
