//! Fields of `FROM` clauses and projections of `SELECT` clauses.
use vstd::prelude::*;

use crate::sql::env::{expansion, Env};
use crate::sql::eval::{source_names, str_set, strs_distinct};
use crate::sql::expr::{lemma_expr_unfold, opt_str, AliasedModel, Expr, ExprModel};
use crate::sql::selector::node_text;

verus! {

/// A source of a `FROM` or `LEFT JOIN` clause, with its alias.
#[derive(Debug, PartialEq)]
pub struct Field {
    pub expr: Expr,
    pub alias: Option<String>,
}

/// A projection of a `SELECT` clause, with its alias.
#[derive(Debug, PartialEq)]
pub struct Proj {
    pub expr: Expr,
    pub alias: Option<String>,
}

/// The name of the column of a projection: its alias, else the last node
/// of its path; `None` for an unnamed projection that is not a path.
pub open spec fn target_name(p: AliasedModel) -> Option<Seq<char>> {
    match p.1 {
        Some(a) => Some(a),
        None => match p.0 {
            ExprModel::Selector(s) => if s.len() > 0 {
                Some(node_text(s.last()))
            } else {
                None
            },
            _ => None,
        },
    }
}

impl Proj {
    /// The name of the column of the projection, if it has one (see
    /// `target_name`).
    pub fn try_target_field_name(&self) -> (r: Option<String>)
        ensures
            opt_str(r) == target_name((self.expr@, opt_str(self.alias))),
    {
        broadcast use lemma_expr_unfold;

        match &self.alias {
            Some(a) => Some(a.clone()),
            None => match &self.expr {
                Expr::Selector(s) => s.last(),
                _ => None,
            },
        }
    }

    /// The name of the column of the projection (see `target_name`).
    pub fn target_field_name(&self) -> (r: String)
        requires
            target_name((self.expr@, opt_str(self.alias))) is Some,
        ensures
            target_name((self.expr@, opt_str(self.alias))) == Some(r@),
    {
        match self.try_target_field_name() {
            Some(s) => s,
            None => String::new(),
        }
    }
}

impl Proj {
    /// The texts of the full paths that the projection reads, each once
    /// (see `source_names`).
    pub fn source_field_name_set(&self, env: &Env) -> (r: Vec<String>)
        requires
            source_names(self.expr@, env@) is Some,
        ensures
            strs_distinct(r@),
            str_set(r@) == source_names(self.expr@, env@)->Some_0,
    {
        self.expr.source_field_name_set(env)
    }

    /// The source field of a projection of a path: the full path (see
    /// `expansion`) with the projection's alias.
    pub fn to_field(&self, env: &Env) -> (r: Field)
        requires
            self.expr@ is Selector,
            expansion(env@, self.expr@->Selector_0) is Some,
        ensures
            r.expr@ == ExprModel::Selector(expansion(env@, self.expr@->Selector_0)->Some_0),
            opt_str(r.alias) == opt_str(self.alias),
    {
        broadcast use lemma_expr_unfold;

        let alias = match &self.alias {
            Some(a) => Some(a.clone()),
            None => None,
        };
        match &self.expr {
            Expr::Selector(s) => Field { expr: Expr::Selector(s.expand_fullpath2(env)), alias },
            _ => Field { expr: Expr::Star, alias },
        }
    }
}

impl Field {
    /// The field with its path expanded to a full path; a value stays as it
    /// is.
    pub fn expand_fullpath(&self, env: &Env) -> (r: Field)
        requires
            self.expr@ is Selector ==> expansion(env@, self.expr@->Selector_0) is Some,
            self.expr@ is Selector || self.expr@ is Value,
        ensures
            opt_str(r.alias) == opt_str(self.alias),
            match self.expr@ {
                ExprModel::Selector(s) => r.expr@ == ExprModel::Selector(
                    expansion(env@, s)->Some_0,
                ),
                _ => r.expr@ == self.expr@,
            },
    {
        let alias = match &self.alias {
            Some(a) => Some(a.clone()),
            None => None,
        };
        Field { expr: env.expand_fullpath(&self.expr), alias }
    }
}

} // verus!
