//! Expressions, functions, conditions, and the query itself.
use vstd::prelude::*;

use crate::sql::clause::{Limit, OrderBy};
use crate::sql::field::{Field, Proj};
use crate::sql::selector::{NodeModel, Selector};
use crate::value::{lemma_view_unfold, PqlValue, ValueModel};

verus! {

/// An expression of a query.
#[derive(Debug, PartialEq)]
pub enum Expr {
    Star,
    Selector(Selector),
    Value(PqlValue),
    Func(Box<Func>),
    Add(Box<Expr>, Box<Expr>),
    Sub(Box<Expr>, Box<Expr>),
    Mul(Box<Expr>, Box<Expr>),
    Div(Box<Expr>, Box<Expr>),
    Rem(Box<Expr>, Box<Expr>),
    Exp(Box<Expr>, Box<Expr>),
    Sql(Sql),
}

/// A function applied to an expression.
#[derive(Debug, PartialEq)]
pub enum Func {
    Count(Expr),
    Upper(Expr),
}

/// A `WHERE` condition.
#[derive(Debug, PartialEq)]
pub enum WhereCond {
    Eq { expr: Expr, right: PqlValue },
    Like { expr: Expr, right: String },
}

/// A query.
#[derive(Debug, PartialEq)]
pub struct Sql {
    pub select_clause: Vec<Proj>,
    pub from_clause: Vec<Field>,
    pub left_join_clause: Vec<Field>,
    pub where_clause: Option<Box<WhereCond>>,
    pub orderby: Option<OrderBy>,
    pub limit: Option<Limit>,
}

/// The mathematical content of an [`Expr`].
pub ghost enum ExprModel {
    Star,
    Selector(Seq<NodeModel>),
    Value(ValueModel),
    Count(Box<ExprModel>),
    Upper(Box<ExprModel>),
    Add(Box<ExprModel>, Box<ExprModel>),
    Sub(Box<ExprModel>, Box<ExprModel>),
    Mul(Box<ExprModel>, Box<ExprModel>),
    Div(Box<ExprModel>, Box<ExprModel>),
    Rem(Box<ExprModel>, Box<ExprModel>),
    Exp(Box<ExprModel>, Box<ExprModel>),
    Sql(Box<SqlModel>),
}

/// The mathematical content of a `WHERE` condition.
pub ghost enum CondExprModel {
    Eq(ExprModel, ValueModel),
    Like(ExprModel, Seq<char>),
}

/// An expression with an optional alias, as a projection or a source.
pub type AliasedModel = (ExprModel, Option<Seq<char>>);

/// The mathematical content of a [`Sql`] query.
pub ghost struct SqlModel {
    pub select_clause: Seq<AliasedModel>,
    pub from_clause: Seq<AliasedModel>,
    pub left_join_clause: Seq<AliasedModel>,
    pub where_clause: Option<CondExprModel>,
    pub orderby: Option<(Seq<char>, bool)>,
    pub limit: Option<(u64, u64)>,
}

/// The model of an optional string.
pub open spec fn opt_str(s: Option<String>) -> Option<Seq<char>> {
    match s {
        Some(x) => Some(x@),
        None => None,
    }
}

pub closed spec fn expr_model(e: Expr) -> ExprModel
    decreases e,
{
    match e {
        Expr::Star => ExprModel::Star,
        Expr::Selector(s) => ExprModel::Selector(s@),
        Expr::Value(v) => ExprModel::Value(v@),
        Expr::Func(f) => match *f {
            Func::Count(x) => ExprModel::Count(Box::new(expr_model(x))),
            Func::Upper(x) => ExprModel::Upper(Box::new(expr_model(x))),
        },
        Expr::Add(a, b) => ExprModel::Add(Box::new(expr_model(*a)), Box::new(expr_model(*b))),
        Expr::Sub(a, b) => ExprModel::Sub(Box::new(expr_model(*a)), Box::new(expr_model(*b))),
        Expr::Mul(a, b) => ExprModel::Mul(Box::new(expr_model(*a)), Box::new(expr_model(*b))),
        Expr::Div(a, b) => ExprModel::Div(Box::new(expr_model(*a)), Box::new(expr_model(*b))),
        Expr::Rem(a, b) => ExprModel::Rem(Box::new(expr_model(*a)), Box::new(expr_model(*b))),
        Expr::Exp(a, b) => ExprModel::Exp(Box::new(expr_model(*a)), Box::new(expr_model(*b))),
        Expr::Sql(q) => ExprModel::Sql(
            Box::new(SqlModel {
                select_clause: Seq::new(
                    q.select_clause@.len(),
                    |i: int|
                        if 0 <= i < q.select_clause@.len() {
                            (
                                expr_model(q.select_clause@[i].expr),
                                opt_str(q.select_clause@[i].alias),
                            )
                        } else {
                            (ExprModel::Star, None)
                        },
                ),
                from_clause: Seq::new(
                    q.from_clause@.len(),
                    |i: int|
                        if 0 <= i < q.from_clause@.len() {
                            (expr_model(q.from_clause@[i].expr), opt_str(q.from_clause@[i].alias))
                        } else {
                            (ExprModel::Star, None)
                        },
                ),
                left_join_clause: Seq::new(
                    q.left_join_clause@.len(),
                    |i: int|
                        if 0 <= i < q.left_join_clause@.len() {
                            (
                                expr_model(q.left_join_clause@[i].expr),
                                opt_str(q.left_join_clause@[i].alias),
                            )
                        } else {
                            (ExprModel::Star, None)
                        },
                ),
                where_clause: match q.where_clause {
                    Some(c) => Some(
                        match *c {
                            WhereCond::Eq { expr, right } => CondExprModel::Eq(
                                expr_model(expr),
                                right@,
                            ),
                            WhereCond::Like { expr, right } => CondExprModel::Like(
                                expr_model(expr),
                                right@,
                            ),
                        },
                    ),
                    None => None,
                },
                orderby: match q.orderby {
                    Some(o) => Some((o.label@, o.is_asc)),
                    None => None,
                },
                limit: match q.limit {
                    Some(l) => Some((l.limit, l.offset)),
                    None => None,
                },
            }),
        ),
    }
}

impl View for Expr {
    type V = ExprModel;

    open spec fn view(&self) -> ExprModel {
        expr_model(*self)
    }
}

/// The model of a list of aliased expressions.
pub open spec fn fields_model(s: Seq<Field>) -> Seq<AliasedModel> {
    s.map_values(|f: Field| (f.expr@, opt_str(f.alias)))
}

/// The model of a list of projections.
pub open spec fn projs_model(s: Seq<Proj>) -> Seq<AliasedModel> {
    s.map_values(|p: Proj| (p.expr@, opt_str(p.alias)))
}

impl View for WhereCond {
    type V = CondExprModel;

    open spec fn view(&self) -> CondExprModel {
        match *self {
            WhereCond::Eq { expr, right } => CondExprModel::Eq(expr@, right@),
            WhereCond::Like { expr, right } => CondExprModel::Like(expr@, right@),
        }
    }
}

impl View for Sql {
    type V = SqlModel;

    open spec fn view(&self) -> SqlModel {
        SqlModel {
            select_clause: projs_model(self.select_clause@),
            from_clause: fields_model(self.from_clause@),
            left_join_clause: fields_model(self.left_join_clause@),
            where_clause: match self.where_clause {
                Some(c) => Some((*c)@),
                None => None,
            },
            orderby: match self.orderby {
                Some(o) => Some((o.label@, o.is_asc)),
                None => None,
            },
            limit: match self.limit {
                Some(l) => Some((l.limit, l.offset)),
                None => None,
            },
        }
    }
}

/// How the model of an expression is made from the models of its parts.
pub broadcast proof fn lemma_expr_unfold(e: Expr)
    ensures
        #[trigger] e@ == match e {
            Expr::Star => ExprModel::Star,
            Expr::Selector(s) => ExprModel::Selector(s@),
            Expr::Value(v) => ExprModel::Value(v@),
            Expr::Func(f) => match *f {
                Func::Count(x) => ExprModel::Count(Box::new(x@)),
                Func::Upper(x) => ExprModel::Upper(Box::new(x@)),
            },
            Expr::Add(a, b) => ExprModel::Add(Box::new((*a)@), Box::new((*b)@)),
            Expr::Sub(a, b) => ExprModel::Sub(Box::new((*a)@), Box::new((*b)@)),
            Expr::Mul(a, b) => ExprModel::Mul(Box::new((*a)@), Box::new((*b)@)),
            Expr::Div(a, b) => ExprModel::Div(Box::new((*a)@), Box::new((*b)@)),
            Expr::Rem(a, b) => ExprModel::Rem(Box::new((*a)@), Box::new((*b)@)),
            Expr::Exp(a, b) => ExprModel::Exp(Box::new((*a)@), Box::new((*b)@)),
            Expr::Sql(q) => ExprModel::Sql(Box::new(q@)),
        },
{
    match e {
        Expr::Sql(q) => {
            match expr_model(e) {
                ExprModel::Sql(m) => {
                    assert(m.select_clause =~= projs_model(q.select_clause@));
                    assert(m.from_clause =~= fields_model(q.from_clause@));
                    assert(m.left_join_clause =~= fields_model(q.left_join_clause@));
                },
                _ => {},
            }
        },
        _ => {},
    }
}

} // verus!

verus! {

impl Default for Expr {
    /// The null value.
    fn default() -> (r: Self)
        ensures
            r@ == ExprModel::Value(ValueModel::Null),
    {
        proof {
            lemma_expr_unfold(Expr::Value(PqlValue::Null));
            lemma_view_unfold(PqlValue::Null);
        }
        Expr::Value(PqlValue::Null)
    }
}

fn copy_projs(v: &Vec<Proj>) -> (r: Vec<Proj>)
    ensures
        projs_model(r@) == projs_model(v@),
    decreases v,
{
    let mut out: Vec<Proj> = Vec::new();
    let mut i: usize = 0;
    while i < v.len()
        invariant
            i <= v@.len(),
            out@.len() == i,
            forall|j: int|
                0 <= j < i ==> (#[trigger] out@[j]).expr@ == v@[j].expr@ && opt_str(out@[j].alias)
                    == opt_str(v@[j].alias),
        decreases v@.len() - i,
    {
        proof {
            assert(decreases_to!(v => v@));
            assert(decreases_to!(v@ => v@[i as int]));
            assert(decreases_to!(v@[i as int] => v@[i as int].expr));
        }
        let p = &v[i];
        let e = p.expr.copy();
        let a = match &p.alias {
            Some(s) => Some(s.clone()),
            None => None,
        };
        out.push(Proj { expr: e, alias: a });
        i = i + 1;
    }
    assert(projs_model(out@) =~= projs_model(v@));
    out
}

fn copy_fields(v: &Vec<Field>) -> (r: Vec<Field>)
    ensures
        fields_model(r@) == fields_model(v@),
    decreases v,
{
    let mut out: Vec<Field> = Vec::new();
    let mut i: usize = 0;
    while i < v.len()
        invariant
            i <= v@.len(),
            out@.len() == i,
            forall|j: int|
                0 <= j < i ==> (#[trigger] out@[j]).expr@ == v@[j].expr@ && opt_str(out@[j].alias)
                    == opt_str(v@[j].alias),
        decreases v@.len() - i,
    {
        proof {
            assert(decreases_to!(v => v@));
            assert(decreases_to!(v@ => v@[i as int]));
            assert(decreases_to!(v@[i as int] => v@[i as int].expr));
        }
        let p = &v[i];
        let e = p.expr.copy();
        let a = match &p.alias {
            Some(s) => Some(s.clone()),
            None => None,
        };
        out.push(Field { expr: e, alias: a });
        i = i + 1;
    }
    assert(fields_model(out@) =~= fields_model(v@));
    out
}

impl WhereCond {
    /// A copy of the condition.
    pub fn copy(&self) -> (r: WhereCond)
        ensures
            r@ == self@,
        decreases self,
    {
        match self {
            WhereCond::Eq { expr, right } => WhereCond::Eq { expr: expr.copy(), right: right.copy() },
            WhereCond::Like { expr, right } => WhereCond::Like {
                expr: expr.copy(),
                right: right.clone(),
            },
        }
    }

    /// The expression that the condition tests.
    pub fn get_expr(&self) -> (r: Expr)
        ensures
            r@ == match self@ {
                CondExprModel::Eq(e, _) => e,
                CondExprModel::Like(e, _) => e,
            },
    {
        match self {
            WhereCond::Eq { expr, .. } => expr.copy(),
            WhereCond::Like { expr, .. } => expr.copy(),
        }
    }
}

impl Default for WhereCond {
    /// Equality of the null value with the null value.
    fn default() -> (r: Self)
        ensures
            r@ == CondExprModel::Eq(ExprModel::Value(ValueModel::Null), ValueModel::Null),
    {
        proof {
            lemma_view_unfold(PqlValue::Null);
        }
        WhereCond::Eq { expr: Expr::default(), right: PqlValue::Null }
    }
}

impl Sql {
    /// A copy of the query.
    pub fn copy(&self) -> (r: Sql)
        ensures
            r@ == self@,
        decreases self,
    {
        let w = match &self.where_clause {
            Some(c) => {
                proof {
                    assert(decreases_to!(self => self.where_clause));
                }
                Some(Box::new((**c).copy()))
            },
            None => None,
        };
        let o = match &self.orderby {
            Some(x) => Some(OrderBy { label: x.label.clone(), is_asc: x.is_asc }),
            None => None,
        };
        let l = match &self.limit {
            Some(x) => Some(Limit { limit: x.limit, offset: x.offset }),
            None => None,
        };
        proof {
            assert(decreases_to!(self => self.select_clause));
            assert(decreases_to!(self => self.from_clause));
            assert(decreases_to!(self => self.left_join_clause));
        }
        Sql {
            select_clause: copy_projs(&self.select_clause),
            from_clause: copy_fields(&self.from_clause),
            left_join_clause: copy_fields(&self.left_join_clause),
            where_clause: w,
            orderby: o,
            limit: l,
        }
    }
}

impl Expr {
    /// A copy of the expression.
    pub fn copy(&self) -> (r: Expr)
        ensures
            r@ == self@,
        decreases self,
    {
        broadcast use lemma_expr_unfold;

        match self {
            Expr::Star => Expr::Star,
            Expr::Selector(s) => Expr::Selector(s.copy()),
            Expr::Value(v) => Expr::Value(v.copy()),
            Expr::Func(f) => Expr::Func(
                Box::new(
                    match &**f {
                        Func::Count(x) => Func::Count(x.copy()),
                        Func::Upper(x) => Func::Upper(x.copy()),
                    },
                ),
            ),
            Expr::Add(a, b) => Expr::Add(Box::new((**a).copy()), Box::new((**b).copy())),
            Expr::Sub(a, b) => Expr::Sub(Box::new((**a).copy()), Box::new((**b).copy())),
            Expr::Mul(a, b) => Expr::Mul(Box::new((**a).copy()), Box::new((**b).copy())),
            Expr::Div(a, b) => Expr::Div(Box::new((**a).copy()), Box::new((**b).copy())),
            Expr::Rem(a, b) => Expr::Rem(Box::new((**a).copy()), Box::new((**b).copy())),
            Expr::Exp(a, b) => Expr::Exp(Box::new((**a).copy()), Box::new((**b).copy())),
            Expr::Sql(q) => Expr::Sql(q.copy()),
        }
    }

    /// The text of a path expression: its nodes joined with `.`.
    pub fn to_string(&self) -> (r: String)
        requires
            self@ is Selector,
        ensures
            r@ == crate::sql::selector::join_dot(crate::sql::selector::texts(self@->Selector_0)),
    {
        broadcast use lemma_expr_unfold;

        match self {
            Expr::Selector(s) => s.to_string(),
            _ => String::new(),
        }
    }

    /// The path of the expression, if it is one.
    pub fn as_path(&self) -> (r: Option<Selector>)
        ensures
            match self@ {
                ExprModel::Selector(s) => r is Some && r->Some_0@ == s,
                _ => r is None,
            },
    {
        broadcast use lemma_expr_unfold;

        match self {
            Expr::Selector(s) => Some(s.copy()),
            _ => None,
        }
    }
}

} // verus!
