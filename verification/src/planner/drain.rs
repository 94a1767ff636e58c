//! Binding the aliases of the `FROM` and `LEFT JOIN` clauses.
use vstd::prelude::*;

use crate::sql::env::{Env, EnvModel};
use crate::sql::expr::{fields_model, opt_str, AliasedModel};
use crate::sql::field::Field;
use crate::value::obj_insert;

verus! {

/// The environment after binding, in order, the alias of each field that has
/// one to the field's expression.
pub open spec fn bind_all(m: EnvModel, fs: Seq<AliasedModel>) -> EnvModel
    decreases fs.len(),
{
    if fs.len() == 0 {
        m
    } else {
        let prev = bind_all(m, fs.drop_last());
        match fs.last().1 {
            Some(a) => obj_insert(prev, a, fs.last().0),
            None => prev,
        }
    }
}

/// The sources of a clause.
pub struct Drain(pub Vec<Field>);

impl Drain {
    /// Binds the alias of each source that has one (see `bind_all`).
    pub fn excute(self, env: &mut Env)
        ensures
            final(env)@ == bind_all(old(env)@, fields_model(self.0@)),
    {
        let ghost fs = fields_model(self.0@);
        let ghost start = env@;
        let n = self.0.len();
        let mut j: usize = 0;
        assert(fs.take(0) =~= Seq::<AliasedModel>::empty());
        for f in it: self.0
            invariant
                it.seq() == self.0@,
                fs == fields_model(self.0@),
                j == it.index(),
                j <= fs.len(),
                n == fs.len(),
                env@ == bind_all(start, fs.take(j as int)),
        {
            proof {
                assert(j < fs.len());
                assert(f == self.0@[j as int]);
                assert(fs[j as int] == (f.expr@, opt_str(f.alias)));
                assert(fs.take(j + 1).drop_last() =~= fs.take(j as int));
                assert(fs.take(j + 1).last() == fs[j as int]);
            }
            match f.alias {
                Some(alias) => {
                    env.insert(alias.as_str(), f.expr);
                },
                None => {},
            }
            j = j + 1;
        }
        assert(fs.take(j as int) =~= fs);
    }
}

} // verus!
