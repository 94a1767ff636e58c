//! The `WHERE` step of a plan: the data restricted to what the condition
//! keeps, along the full path of the condition's expression.
use vstd::prelude::*;

use crate::sql::env::{expansion, Env, EnvModel};
use crate::sql::eval::expr_expand;
use crate::sql::expr::{lemma_expr_unfold, CondExprModel, Expr, ExprModel, WhereCond};
use crate::sql::filter::{restrict_spec, restricted_model, try_restrict, CondModel, FilterError};
use crate::value::{lemma_view_unfold, models, PqlValue, ValueModel};

verus! {

broadcast use {lemma_expr_unfold, lemma_view_unfold};

/// The `WHERE` clause of a plan.
pub struct Filter(pub Option<Box<WhereCond>>);

/// The model of the condition of a filter.
pub open spec fn filter_model(f: Filter) -> Option<CondExprModel> {
    match f.0 {
        Some(c) => Some((*c)@),
        None => None,
    }
}

/// The data that the filter `c` keeps of `v` in `m`: everything without a
/// condition; else the restriction of `v` (see `restrict_spec`) along the
/// full path of the condition's expression, or an empty array when nothing
/// is kept. An error where the expression is not a path, its aliases run in
/// a circle, or the value cannot be filtered.
pub open spec fn filter_spec(c: Option<CondExprModel>, v: ValueModel, m: EnvModel) -> Result<
    ValueModel,
    FilterError,
> {
    match c {
        None => Ok(v),
        Some(cond) => {
            let (e, test) = match cond {
                CondExprModel::Eq(e, right) => (e, CondModel::Eq(right)),
                CondExprModel::Like(e, p) => (e, CondModel::Like(p)),
            };
            match e {
                ExprModel::Selector(s) => match expansion(m, s) {
                    None => Err(FilterError::CyclicAlias),
                    Some(path) => match restrict_spec(v, path, Some(test)) {
                        Ok(Some(x)) => Ok(x),
                        Ok(None) => Ok(ValueModel::Array(Seq::empty())),
                        Err(err) => Err(err),
                    },
                },
                _ => Err(FilterError::NotAPath),
            }
        },
    }
}

/// The model of the outcome of a filter.
pub open spec fn filtered_model(r: Result<PqlValue, FilterError>) -> Result<ValueModel, FilterError> {
    match r {
        Ok(v) => Ok(v@),
        Err(e) => Err(e),
    }
}

impl Filter {
    /// The data that the filter keeps of `value` in `env` (see
    /// `filter_spec`).
    pub fn execute(self, value: PqlValue, env: &Env) -> (r: Result<PqlValue, FilterError>)
        ensures
            filtered_model(r) == filter_spec(filter_model(self), value@, env@),
    {
        let ghost vm = value@;
        match self.0 {
            None => Ok(value),
            Some(b) => {
                let (expr, cond) = match *b {
                    WhereCond::Eq { expr, right } => (
                        expr,
                        WhereCond::Eq { expr: Expr::default(), right },
                    ),
                    WhereCond::Like { expr, right } => (
                        expr,
                        WhereCond::Like { expr: Expr::default(), right },
                    ),
                };
                match expr {
                    Expr::Selector(s) => {
                        if !env.resolves(&s) {
                            return Err(FilterError::CyclicAlias);
                        }
                        let path = s.expand_fullpath2(env);
                        match try_restrict(Some(value), &path, &Some(cond)) {
                            Ok(Some(x)) => Ok(x),
                            Ok(None) => {
                                let empty: Vec<PqlValue> = Vec::new();
                                proof {
                                    assert(models(empty@) =~= Seq::<ValueModel>::empty());
                                }
                                Ok(PqlValue::Array(empty))
                            },
                            Err(e) => Err(e),
                        }
                    },
                    _ => Err(FilterError::NotAPath),
                }
            },
        }
    }

    /// The filter with the path of its condition expanded (see
    /// `expr_expand`).
    pub fn expand_fullpath(self, env: &Env) -> (r: Filter)
        requires
            match filter_model(self) {
                Some(CondExprModel::Eq(e, _)) => expr_expand(e, env@) is Some,
                Some(CondExprModel::Like(e, _)) => expr_expand(e, env@) is Some,
                None => true,
            },
        ensures
            match (filter_model(self), filter_model(r)) {
                (Some(CondExprModel::Eq(e, v)), Some(CondExprModel::Eq(e2, v2))) => expr_expand(
                    e,
                    env@,
                ) == Some(e2) && v2 == v,
                (Some(CondExprModel::Like(e, p)), Some(CondExprModel::Like(e2, p2))) => expr_expand(
                    e,
                    env@,
                ) == Some(e2) && p2 == p,
                (None, None) => true,
                _ => false,
            },
    {
        match self.0 {
            None => Filter(None),
            Some(b) => match *b {
                WhereCond::Eq { expr, right } => Filter(
                    Some(Box::new(WhereCond::Eq { expr: expr.expand_fullpath(env), right })),
                ),
                WhereCond::Like { expr, right } => Filter(
                    Some(Box::new(WhereCond::Like { expr: expr.expand_fullpath(env), right })),
                ),
            },
        }
    }
}

} // verus!
