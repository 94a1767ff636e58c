//! Bindings of the aliases of a query's sources to their paths, and the
//! full paths they give.
use vstd::prelude::*;

use crate::planner::drain::bind_all;
use crate::sql::env::{alias_path, expansion, opt_sel, Env, EnvModel};
use crate::sql::expr::{fields_model, lemma_expr_unfold, opt_str, AliasedModel, Expr, ExprModel};
use crate::sql::field::Field;
use crate::sql::selector::Selector;

verus! {

broadcast use lemma_expr_unfold;

/// Every source is a path with an alias.
pub open spec fn all_aliased_paths(fs: Seq<AliasedModel>) -> bool {
    forall|i: int| 0 <= i < fs.len() ==> #[trigger] fs[i].0 is Selector && fs[i].1 is Some
}

/// The aliases of a query's sources and the paths they name.
pub struct Bindings {
    locals: Env,
}

impl Bindings {
    /// Each alias with what it names.
    pub closed spec fn locals(&self) -> EnvModel {
        self.locals@
    }

    /// The bindings of the sources `fields`, each a path with an alias,
    /// bound in order (a later alias replaces an earlier one).
    pub fn from_fields(fields: &[Field]) -> (r: Bindings)
        requires
            all_aliased_paths(fields_model(fields@)),
        ensures
            r.locals() == bind_all(Seq::empty(), fields_model(fields@)),
    {
        let ghost fs = fields_model(fields@);
        let mut env = Env::new();
        let mut i: usize = 0;
        assert(fs.take(0) =~= Seq::<AliasedModel>::empty());
        while i < fields.len()
            invariant
                i <= fields@.len(),
                fs == fields_model(fields@),
                env@ == bind_all(Seq::empty(), fs.take(i as int)),
            decreases fields@.len() - i,
        {
            assert(fs.take(i + 1).drop_last() =~= fs.take(i as int));
            assert(fs.take(i + 1).last() == fs[i as int]);
            assert(fs[i as int] == (fields@[i as int].expr@, opt_str(fields@[i as int].alias)));
            let f = &fields[i];
            match &f.alias {
                Some(a) => {
                    env.insert(a.as_str(), f.expr.copy());
                },
                None => {},
            }
            i = i + 1;
        }
        assert(fs.take(i as int) =~= fs);
        Bindings { locals: env }
    }

    /// The path that `alias` names, if any.
    pub fn from_alias(&self, alias: &str) -> (r: Option<Selector>)
        ensures
            opt_sel(r) == alias_path(self.locals(), alias@),
    {
        match self.locals.get_as_selector(alias) {
            Some(s) => Some(s.copy()),
            None => None,
        }
    }

    /// The full path of the path `value`, its aliases expanded (see
    /// `expansion`).
    pub fn get_full_path(&self, value: &Expr) -> (r: Selector)
        requires
            value@ is Selector,
            expansion(self.locals(), value@->Selector_0) is Some,
        ensures
            expansion(self.locals(), value@->Selector_0) == Some(r@),
    {
        match value {
            Expr::Selector(s) => self.locals.expand_fullpath_as_selector(s),
            _ => Selector { data: Vec::new() },
        }
    }
}

} // verus!
