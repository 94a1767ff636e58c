//! Query plans: binding the sources of a query, filtering the data,
//! projecting it into rows, and ordering and limiting the rows.
pub mod drain;
pub mod filter;
pub mod order;
pub mod project;

use vstd::prelude::*;

use crate::sql::clause::{Limit, OrderBy};
use crate::sql::env::{Env, EnvModel};
use crate::sql::expr::{
    fields_model, lemma_expr_unfold, projs_model, AliasedModel, CondExprModel, Expr, ExprModel,
    Sql, SqlModel,
};
use crate::sql::filter::FilterError;
use crate::value::{lemma_view_unfold, models, obj_insert, PqlValue, ValueModel};
use drain::{bind_all, Drain};
use filter::{filter_model, filter_spec, Filter};
use order::{limit_rows, limit_spec, order_rows, order_spec, OrderError};
use project::{projection_model, projection_spec, ProjectError, Projection};

verus! {

broadcast use {lemma_expr_unfold, lemma_view_unfold};

/// Why a query has no result.
#[derive(Debug, Clone, Copy, PartialEq, Eq)]
pub enum QueryError {
    Filter(FilterError),
    Project(ProjectError),
    Order(OrderError),
}

/// The environment after binding the sources of each clause in turn.
pub open spec fn drains_env(m: EnvModel, ds: Seq<Seq<AliasedModel>>) -> EnvModel
    decreases ds.len(),
{
    if ds.len() == 0 {
        m
    } else {
        bind_all(drains_env(m, ds.drop_last()), ds.last())
    }
}

/// The environment with the data bound to the root key.
pub open spec fn root_bound(m: EnvModel, data: ValueModel) -> EnvModel {
    obj_insert(m, Seq::empty(), ExprModel::Value(data))
}

/// The rows of a query: the sources bound, the data filtered and bound to
/// the root key, projected, ordered, and limited.
pub open spec fn run_spec(
    drains: Seq<Seq<AliasedModel>>,
    cond: Option<CondExprModel>,
    projs: Seq<AliasedModel>,
    orderby: Option<(Seq<char>, bool)>,
    limit: Option<(u64, u64)>,
    data: ValueModel,
    m: EnvModel,
) -> Result<Seq<ValueModel>, QueryError> {
    let env1 = drains_env(m, drains);
    match filter_spec(cond, data, env1) {
        Err(e) => Err(QueryError::Filter(e)),
        Ok(v) => match projection_spec(projs, root_bound(env1, v)) {
            Err(e) => Err(QueryError::Project(e)),
            Ok(rows) => {
                let ordered = match orderby {
                    Some((label, asc)) => order_spec(rows, label, asc),
                    None => Ok(rows),
                };
                match ordered {
                    Err(e) => Err(QueryError::Order(e)),
                    Ok(o) => match limit {
                        Some((l, off)) => match limit_spec(o, l, off) {
                            Ok(x) => Ok(x),
                            Err(e) => Err(QueryError::Order(e)),
                        },
                        None => Ok(o),
                    },
                }
            },
        },
    }
}

/// The environment after running a query: its sources bound, and the
/// filtered data bound to the root key when the filter succeeds.
pub open spec fn run_env(
    drains: Seq<Seq<AliasedModel>>,
    cond: Option<CondExprModel>,
    data: ValueModel,
    m: EnvModel,
) -> EnvModel {
    let env1 = drains_env(m, drains);
    match filter_spec(cond, data, env1) {
        Ok(v) => root_bound(env1, v),
        Err(_) => env1,
    }
}

/// The plan of a query.
pub struct LogicalPlan {
    pub drains: Vec<Drain>,
    pub filter: Filter,
    pub project: Projection,
    pub order_by: Option<OrderBy>,
    pub limit: Option<Limit>,
}

/// The sources of each clause of a plan.
pub open spec fn drains_model(ds: Seq<Drain>) -> Seq<Seq<AliasedModel>> {
    ds.map_values(|d: Drain| fields_model(d.0@))
}

/// The model of an `ORDER BY` clause.
pub open spec fn orderby_model(o: Option<OrderBy>) -> Option<(Seq<char>, bool)> {
    match o {
        Some(x) => Some((x.label@, x.is_asc)),
        None => None,
    }
}

/// The model of a `LIMIT` clause.
pub open spec fn limit_model(l: Option<Limit>) -> Option<(u64, u64)> {
    match l {
        Some(x) => Some((x.limit, x.offset)),
        None => None,
    }
}

/// The model of the outcome of a query.
pub open spec fn query_model(r: Result<PqlValue, QueryError>) -> Result<ValueModel, QueryError> {
    match r {
        Ok(v) => Ok(v@),
        Err(e) => Err(e),
    }
}

/// The rows of a run as an array.
pub open spec fn as_array(r: Result<Seq<ValueModel>, QueryError>) -> Result<ValueModel, QueryError> {
    match r {
        Ok(rows) => Ok(ValueModel::Array(rows)),
        Err(e) => Err(e),
    }
}

impl LogicalPlan {
    /// The plan of a query: its `FROM` and `LEFT JOIN` sources, its
    /// condition, its projections, its order and its limit.
    pub fn from_sql(sql: Sql) -> (r: LogicalPlan)
        ensures
            drains_model(r.drains@) == seq![sql@.from_clause, sql@.left_join_clause],
            filter_model(r.filter) == sql@.where_clause,
            projection_model(r.project) == sql@.select_clause,
            orderby_model(r.order_by) == sql@.orderby,
            limit_model(r.limit) == sql@.limit,
    {
        let ghost q = sql@;
        let mut drains: Vec<Drain> = Vec::new();
        drains.push(Drain(sql.from_clause));
        drains.push(Drain(sql.left_join_clause));
        assert(drains_model(drains@) =~= seq![q.from_clause, q.left_join_clause]);
        LogicalPlan {
            drains,
            filter: Filter(sql.where_clause),
            project: Projection(sql.select_clause),
            order_by: sql.orderby,
            limit: sql.limit,
        }
    }

    /// Runs the plan on `data` in `env` (see `run_spec` and `run_env`).
    #[verifier::loop_isolation(false)]
    pub fn excute(self, data: PqlValue, env: &mut Env) -> (r: Result<PqlValue, QueryError>)
        ensures
            query_model(r) == as_array(
                run_spec(
                    drains_model(self.drains@),
                    filter_model(self.filter),
                    projection_model(self.project),
                    orderby_model(self.order_by),
                    limit_model(self.limit),
                    data@,
                    old(env)@,
                ),
            ),
            final(env)@ == run_env(
                drains_model(self.drains@),
                filter_model(self.filter),
                data@,
                old(env)@,
            ),
    {
        let ghost ds = drains_model(self.drains@);
        let ghost start = env@;
        let n = self.drains.len();
        let mut j: usize = 0;
        assert(ds.take(0) =~= Seq::<Seq<AliasedModel>>::empty());
        for d in it: self.drains
            invariant
                it.seq() == self.drains@,
                ds == drains_model(self.drains@),
                j == it.index(),
                j <= ds.len(),
                n == ds.len(),
                env@ == drains_env(start, ds.take(j as int)),
        {
            proof {
                assert(d == self.drains@[j as int]);
                assert(ds.take(j + 1).drop_last() =~= ds.take(j as int));
                assert(ds.take(j + 1).last() == ds[j as int]);
            }
            d.excute(env);
            j = j + 1;
        }
        assert(ds.take(j as int) =~= ds);
        let filtered = match self.filter.execute(data, env) {
            Ok(v) => v,
            Err(e) => {
                return Err(QueryError::Filter(e));
            },
        };
        env.insert("", Expr::Value(filtered));
        proof {
            reveal_strlit("");
            assert(""@ =~= Seq::<char>::empty());
        }
        let rows = match self.project.execute(env) {
            Ok(rows) => rows,
            Err(e) => {
                return Err(QueryError::Project(e));
            },
        };
        let ordered = match self.order_by {
            Some(o) => match order_rows(rows, o.label.as_str(), o.is_asc) {
                Ok(x) => x,
                Err(e) => {
                    return Err(QueryError::Order(e));
                },
            },
            None => rows,
        };
        let limited = match self.limit {
            Some(l) => match limit_rows(ordered, l.limit, l.offset) {
                Ok(x) => x,
                Err(e) => {
                    return Err(QueryError::Order(e));
                },
            },
            None => ordered,
        };
        Ok(PqlValue::Array(limited))
    }
}

/// The rows of the query `q` on `data`, in an empty environment.
pub open spec fn query_spec(q: SqlModel, data: ValueModel) -> Result<ValueModel, QueryError> {
    as_array(
        run_spec(
            seq![q.from_clause, q.left_join_clause],
            q.where_clause,
            q.select_clause,
            q.orderby,
            q.limit,
            data,
            Seq::empty(),
        ),
    )
}

/// Runs the query `sql` on `data` (see `query_spec`).
pub fn evaluate(sql: Sql, data: PqlValue) -> (r: Result<PqlValue, QueryError>)
    ensures
        query_model(r) == query_spec(sql@, data@),
{
    let mut env = Env::new();
    let plan = LogicalPlan::from_sql(sql);
    plan.excute(data, &mut env)
}

} // verus!
