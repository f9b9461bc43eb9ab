//! Handles a querier's request against ingester data: builds the logical
//! plan that reads one queryable batch with an optional column selection
//! and optional filter expressions. Executing the plan — and with it the
//! batch's delete predicates — is the execution engine's part.

use vstd::prelude::*;
use crate::merge::{has_conflict, is_merge_of, some_has, SchemaConflict};
use crate::predicate::{Op, Predicate, Scalar, scalar_model};
use crate::query::QueryableBatch;
use crate::reorg::{CompareOp, Expr, LogicalPlan, ReorgPlanner};
use crate::schema::{cols_has, Selection};

verus! {

/// Why a query over a queryable batch could not be planned.
#[derive(Debug)]
pub enum Error {
    /// A requested column is not part of the batch's schema.
    SelectColumns { column: String },
    /// The batch's snapshot schemas disagree on a column's type.
    Schema { conflict: SchemaConflict },
}

/// The comparison operator a delete-style clause maps to.
pub open spec fn filter_op(op: Op) -> CompareOp {
    match op {
        Op::Eq => CompareOp::Eq,
        Op::Ne => CompareOp::NotEq,
    }
}

/// Whether a planner filter carries the same test as a predicate clause.
pub open spec fn filter_matches(f: Expr, e: crate::predicate::DeleteExpr) -> bool {
    &&& f.column@ == e.column@
    &&& f.op == filter_op(e.op)
    &&& scalar_model(f.value) == scalar_model(e.scalar)
}

/// Builds the plan that queries a queryable batch: merges the batch's
/// schema, resolves the requested columns into a projection, turns the
/// predicate's clauses into filters, and emits a single-chunk scan plan.
pub fn query(data: QueryableBatch, predicate: &Predicate, selection: &Selection) -> (r: Result<
    LogicalPlan<QueryableBatch>,
    Error,
>)
    requires
        data.wf(),
    ensures
        match r {
            Ok(plan) => {
                &&& !has_conflict(data.spec_schemas())
                &&& (plan matches LogicalPlan::Scan { provider, projection, filters } && {
                    &&& is_merge_of(provider.schema.columns@, data.spec_schemas())
                    &&& provider.chunks@ =~= seq![data]
                    &&& provider.table_name@ == data.table_name@
                    &&& provider.ensure_pk_sort == false
                    &&& (match *selection {
                        Selection::All => projection is None,
                        Selection::Columns(names) => projection matches Some(idxs)
                            && idxs@.len() == names@.len() && forall|m: int|
                            0 <= m < idxs@.len() ==> idxs@[m] < provider.schema.columns@.len()
                                && provider.schema.columns@[#[trigger] idxs@[m] as int].name@
                                == names@[m]@,
                    })
                    &&& filters@.len() == predicate.exprs@.len()
                    &&& forall|m: int|
                        0 <= m < filters@.len() ==> filter_matches(
                            #[trigger] filters@[m],
                            predicate.exprs@[m],
                        )
                })
            },
            Err(Error::Schema { conflict }) => has_conflict(data.spec_schemas()),
            Err(Error::SelectColumns { column }) => {
                &&& !has_conflict(data.spec_schemas())
                &&& !some_has(data.spec_schemas(), column@)
                &&& (*selection matches Selection::Columns(names) && exists|m: int|
                    0 <= m < names@.len() && names@[m]@ == column@)
            },
        },
{
    let merged = match data.schema() {
        Ok(m) => m,
        Err(e) => {
            return Err(Error::Schema { conflict: e });
        },
    };
    let indices: Option<Vec<usize>> = match selection {
        Selection::All => None,
        Selection::Columns(names) => {
            match merged.compute_select_indices(names) {
                Ok(idxs) => Some(idxs),
                Err(missing) => {
                    proof {
                        assert(!some_has(data.spec_schemas(), missing@)) by {
                            if some_has(data.spec_schemas(), missing@) {
                                assert(cols_has(merged.columns@, missing@));
                            }
                        }
                    }
                    return Err(Error::SelectColumns { column: missing });
                },
            }
        },
    };
    let mut filters: Vec<Expr> = Vec::new();
    let mut i: usize = 0;
    while i < predicate.exprs.len()
        invariant
            i <= predicate.exprs@.len(),
            filters@.len() == i,
            forall|m: int|
                0 <= m < i ==> filter_matches(#[trigger] filters@[m], predicate.exprs@[m]),
        decreases predicate.exprs@.len() - i,
    {
        let e = &predicate.exprs[i];
        let value = match &e.scalar {
            Scalar::Bool(b) => Scalar::Bool(*b),
            Scalar::I64(v) => Scalar::I64(*v),
            Scalar::Utf8(s) => Scalar::Utf8(s.clone()),
        };
        let op = match e.op {
            Op::Eq => CompareOp::Eq,
            Op::Ne => CompareOp::NotEq,
        };
        filters.push(Expr { column: e.column.clone(), op, value });
        i = i + 1;
    }
    let planner = ReorgPlanner::new();
    match planner.scan_single_chunk_plan_with_filter(merged, data, indices, filters) {
        Ok(plan) => Ok(plan),
        Err(_) => {
            proof {
                assert(false);
            }
            Err(Error::Schema {
                conflict: SchemaConflict {
                    column: String::new(),
                    first_type: crate::schema::ColumnType::Bool,
                    second_type: crate::schema::ColumnType::Bool,
                },
            })
        },
    }
}

} // verus!
