//! Bindings of aliases both ways: from an alias to the path it names, and
//! from the text of a path to its alias.
use vstd::prelude::*;

use crate::sql::env::opt_sel;
use crate::sql::expr::{fields_model, lemma_expr_unfold, opt_str, AliasedModel, Expr, ExprModel};
use crate::sql::field::Field;
use crate::sql::selector::{join_dot, plain_keys, texts, NodeModel, Selector};
use crate::value::{
    has_key, key_index, keys_distinct, lemma_get_insert_other, lemma_get_insert_same,
    lemma_insert_keeps_distinct, lemma_key_index_unique, obj_get, obj_insert,
};

verus! {

broadcast use lemma_expr_unfold;

/// The model of a list of keyed entries.
pub open spec fn assoc_model<V: View>(v: Seq<(String, V)>) -> Seq<(Seq<char>, V::V)> {
    v.map_values(|p: (String, V)| (p.0@, p.1@))
}

fn assoc_index<V: View>(v: &Vec<(String, V)>, key: &String) -> (r: Option<usize>)
    requires
        keys_distinct(assoc_model(v@)),
    ensures
        match r {
            Some(i) => i < v@.len() && has_key(assoc_model(v@), key@) && key_index(
                assoc_model(v@),
                key@,
            ) == i,
            None => !has_key(assoc_model(v@), key@),
        },
{
    let ghost m = assoc_model(v@);
    let mut i: usize = 0;
    while i < v.len()
        invariant
            i <= v@.len(),
            m == assoc_model(v@),
            keys_distinct(m),
            forall|j: int| 0 <= j < i ==> m[j].0 != key@,
        decreases v@.len() - i,
    {
        assert(m[i as int].0 == v@[i as int].0@);
        if v[i].0 == *key {
            proof {
                lemma_key_index_unique(m, key@, i as int);
            }
            return Some(i);
        }
        i = i + 1;
    }
    None
}

fn assoc_insert<V: View>(v: &mut Vec<(String, V)>, key: String, x: V)
    requires
        keys_distinct(assoc_model(old(v)@)),
    ensures
        assoc_model(final(v)@) == obj_insert(assoc_model(old(v)@), key@, x@),
        keys_distinct(assoc_model(final(v)@)),
{
    let ghost m = assoc_model(v@);
    proof {
        lemma_insert_keeps_distinct(m, key@, x@);
    }
    match assoc_index(v, &key) {
        Some(i) => {
            let ghost before = v@;
            v.remove(i);
            v.insert(i, (key, x));
            assert(v@ =~= before.update(i as int, v@[i as int]));
            assert(assoc_model(v@) =~= obj_insert(m, key@, x@));
        },
        None => {
            v.push((key, x));
            assert(assoc_model(v@) =~= obj_insert(m, key@, x@));
        },
    }
}

/// From each alias to the path it names, for the fields that are paths with
/// an alias; a later alias replaces an earlier one.
pub open spec fn locals_of(fs: Seq<AliasedModel>) -> Seq<(Seq<char>, Seq<NodeModel>)>
    decreases fs.len(),
{
    if fs.len() == 0 {
        Seq::empty()
    } else {
        let p = locals_of(fs.drop_last());
        match (fs.last().0, fs.last().1) {
            (ExprModel::Selector(s), Some(a)) => obj_insert(p, a, s),
            _ => p,
        }
    }
}

/// From the text of each aliased path to its alias; a later alias replaces
/// an earlier one.
pub open spec fn rev_of(fs: Seq<AliasedModel>) -> Seq<(Seq<char>, Seq<char>)>
    decreases fs.len(),
{
    if fs.len() == 0 {
        Seq::empty()
    } else {
        let p = rev_of(fs.drop_last());
        match (fs.last().0, fs.last().1) {
            (ExprModel::Selector(s), Some(a)) => obj_insert(p, join_dot(texts(s)), a),
            _ => p,
        }
    }
}

/// The aliases given to paths among `fs` are pairwise distinct.
pub open spec fn aliases_distinct(fs: Seq<AliasedModel>) -> bool {
    forall|i: int, j: int|
        0 <= i < j < fs.len() && fs[i].0 is Selector && fs[j].0 is Selector && fs[i].1 is Some
            ==> #[trigger] fs[i].1 != #[trigger] fs[j].1
}

proof fn lemma_bindings_distinct(fs: Seq<AliasedModel>)
    ensures
        keys_distinct(locals_of(fs)),
        keys_distinct(rev_of(fs)),
    decreases fs.len(),
{
    if fs.len() > 0 {
        let p = fs.drop_last();
        lemma_bindings_distinct(p);
        if let (ExprModel::Selector(s), Some(a)) = (fs.last().0, fs.last().1) {
            lemma_insert_keeps_distinct(locals_of(p), a, s);
            lemma_insert_keeps_distinct(rev_of(p), join_dot(texts(s)), a);
        }
    }
}

/// Each alias found in `rev_of(fs)` is the alias of a path among `fs`.
proof fn lemma_rev_alias_origin(fs: Seq<AliasedModel>, t: Seq<char>) -> (k: int)
    requires
        obj_get(rev_of(fs), t) is Some,
    ensures
        0 <= k < fs.len(),
        fs[k].0 is Selector,
        fs[k].1 == Some(obj_get(rev_of(fs), t)->Some_0),
    decreases fs.len(),
{
    let p = fs.drop_last();
    lemma_bindings_distinct(p);
    match (fs.last().0, fs.last().1) {
        (ExprModel::Selector(s), Some(a)) => {
            let ts = join_dot(texts(s));
            if t == ts {
                lemma_get_insert_same(rev_of(p), ts, a);
                fs.len() - 1
            } else {
                lemma_get_insert_other(rev_of(p), ts, a, t);
                lemma_rev_alias_origin(p, t)
            }
        },
        _ => lemma_rev_alias_origin(p, t),
    }
}

/// Going from a path to its alias and back gives a path with the same text:
/// when the aliases given to paths are distinct, the alias bound to the text
/// `t` of a path names a path whose text is `t`.
pub proof fn lemma_alias_roundtrip(fs: Seq<AliasedModel>, t: Seq<char>)
    requires
        aliases_distinct(fs),
        obj_get(rev_of(fs), t) is Some,
    ensures
        obj_get(locals_of(fs), obj_get(rev_of(fs), t)->Some_0) matches Some(s) && join_dot(
            texts(s),
        ) == t,
    decreases fs.len(),
{
    let p = fs.drop_last();
    lemma_bindings_distinct(p);
    assert(aliases_distinct(p)) by {
        assert forall|i: int, j: int|
            0 <= i < j < p.len() && p[i].0 is Selector && p[j].0 is Selector && p[i].1 is Some
            implies #[trigger] p[i].1 != #[trigger] p[j].1 by {
            assert(p[i] == fs[i] && p[j] == fs[j]);
        }
    }
    match (fs.last().0, fs.last().1) {
        (ExprModel::Selector(s), Some(a)) => {
            let ts = join_dot(texts(s));
            if t == ts {
                lemma_get_insert_same(rev_of(p), ts, a);
                lemma_get_insert_same(locals_of(p), a, s);
            } else {
                lemma_get_insert_other(rev_of(p), ts, a, t);
                let b = obj_get(rev_of(p), t)->Some_0;
                lemma_alias_roundtrip(p, t);
                let k = lemma_rev_alias_origin(p, t);
                assert(fs[k] == p[k]);
                assert(fs[k].1 != fs[fs.len() - 1].1);
                lemma_get_insert_other(locals_of(p), a, s, b);
            }
        },
        _ => {
            lemma_alias_roundtrip(p, t);
        },
    }
}

/// The texts of the paths given an alias among `fs` are pairwise distinct.
pub open spec fn aliased_texts_distinct(fs: Seq<AliasedModel>) -> bool {
    forall|i: int, j: int|
        #![trigger fs[i], fs[j]]
        0 <= i < j < fs.len() && fs[i].0 is Selector && fs[j].0 is Selector && fs[i].1 is Some
            && fs[j].1 is Some ==> join_dot(texts(fs[i].0->Selector_0)) != join_dot(
            texts(fs[j].0->Selector_0),
        )
}

/// Each path found in `locals_of(fs)` is a path given that alias among `fs`.
proof fn lemma_local_origin(fs: Seq<AliasedModel>, a: Seq<char>) -> (k: int)
    requires
        obj_get(locals_of(fs), a) is Some,
    ensures
        0 <= k < fs.len(),
        fs[k].0 == ExprModel::Selector(obj_get(locals_of(fs), a)->Some_0),
        fs[k].1 == Some(a),
    decreases fs.len(),
{
    let p = fs.drop_last();
    lemma_bindings_distinct(p);
    match (fs.last().0, fs.last().1) {
        (ExprModel::Selector(s), Some(b)) => {
            if a == b {
                lemma_get_insert_same(locals_of(p), b, s);
                fs.len() - 1
            } else {
                lemma_get_insert_other(locals_of(p), b, s, a);
                lemma_local_origin(p, a)
            }
        },
        _ => lemma_local_origin(p, a),
    }
}

/// Going from an alias to its path and back gives the alias again: when
/// the paths given aliases have distinct texts, the text of the path that
/// alias `a` names is bound back to `a`.
pub proof fn lemma_path_roundtrip(fs: Seq<AliasedModel>, a: Seq<char>)
    requires
        aliased_texts_distinct(fs),
        obj_get(locals_of(fs), a) is Some,
    ensures
        obj_get(rev_of(fs), join_dot(texts(obj_get(locals_of(fs), a)->Some_0))) == Some(a),
    decreases fs.len(),
{
    let p = fs.drop_last();
    lemma_bindings_distinct(p);
    assert(aliased_texts_distinct(p)) by {
        assert forall|i: int, j: int|
            #![trigger p[i], p[j]]
            0 <= i < j < p.len() && p[i].0 is Selector && p[j].0 is Selector && p[i].1 is Some
                && p[j].1 is Some implies join_dot(texts(p[i].0->Selector_0)) != join_dot(
            texts(p[j].0->Selector_0),
        ) by {
            assert(p[i] == fs[i] && p[j] == fs[j]);
        }
    }
    match (fs.last().0, fs.last().1) {
        (ExprModel::Selector(s), Some(b)) => {
            let ts = join_dot(texts(s));
            if a == b {
                lemma_get_insert_same(locals_of(p), b, s);
                lemma_get_insert_same(rev_of(p), ts, b);
            } else {
                lemma_get_insert_other(locals_of(p), b, s, a);
                let s2 = obj_get(locals_of(p), a)->Some_0;
                lemma_path_roundtrip(p, a);
                let k = lemma_local_origin(p, a);
                assert(fs[k] == p[k]);
                let last = fs.len() - 1;
                assert(fs[last] == fs.last());
                assert(join_dot(texts(fs[k].0->Selector_0)) != join_dot(texts(fs[last].0->Selector_0)));
                lemma_get_insert_other(rev_of(p), ts, b, join_dot(texts(s2)));
            }
        },
        _ => {
            lemma_path_roundtrip(p, a);
        },
    }
}

/// The aliases of a set of fields, both ways.
pub struct Bingings {
    locals: Vec<(String, Selector)>,
    locals_rev: Vec<(String, String)>,
}

impl Bingings {
    #[verifier::type_invariant]
    closed spec fn wf(self) -> bool {
        &&& keys_distinct(assoc_model(self.locals@))
        &&& keys_distinct(assoc_model(self.locals_rev@))
    }

    /// From each alias to its path.
    pub closed spec fn locals(&self) -> Seq<(Seq<char>, Seq<NodeModel>)> {
        assoc_model(self.locals@)
    }

    /// From the text of each path to its alias.
    pub closed spec fn locals_rev(&self) -> Seq<(Seq<char>, Seq<char>)> {
        assoc_model(self.locals_rev@)
    }

    /// The bindings of the aliased paths among `fields` (see `locals_of`
    /// and `rev_of`).
    pub fn from_fields(fields: &[Field]) -> (r: Bingings)
        ensures
            r.locals() == locals_of(fields_model(fields@)),
            r.locals_rev() == rev_of(fields_model(fields@)),
    {
        let ghost fs = fields_model(fields@);
        let mut locals: Vec<(String, Selector)> = Vec::new();
        let mut rev: Vec<(String, String)> = Vec::new();
        let mut i: usize = 0;
        assert(fs.take(0) =~= Seq::<AliasedModel>::empty());
        assert(assoc_model(locals@) =~= Seq::<(Seq<char>, Seq<NodeModel>)>::empty());
        assert(assoc_model(rev@) =~= Seq::<(Seq<char>, Seq<char>)>::empty());
        while i < fields.len()
            invariant
                i <= fields@.len(),
                fs == fields_model(fields@),
                assoc_model(locals@) == locals_of(fs.take(i as int)),
                assoc_model(rev@) == rev_of(fs.take(i as int)),
                keys_distinct(assoc_model(locals@)),
                keys_distinct(assoc_model(rev@)),
            decreases fields@.len() - i,
        {
            assert(fs.take(i + 1).drop_last() =~= fs.take(i as int));
            assert(fs.take(i + 1).last() == fs[i as int]);
            assert(fs[i as int] == (fields@[i as int].expr@, opt_str(fields@[i as int].alias)));
            let f = &fields[i];
            match (&f.expr, &f.alias) {
                (Expr::Selector(s), Some(a)) => {
                    assoc_insert(&mut locals, a.clone(), s.copy());
                    assoc_insert(&mut rev, s.to_string(), a.clone());
                },
                _ => {},
            }
            i = i + 1;
        }
        assert(fs.take(i as int) =~= fs);
        Bingings { locals, locals_rev: rev }
    }

    /// The alias of the path `path`, if it has one, read as a path: its
    /// `.`-separated keys (see `Selector::from_path`), at least one.
    pub fn to_alias(&self, path: &Selector) -> (r: Option<Selector>)
        ensures
            match obj_get(self.locals_rev(), join_dot(texts(path@))) {
                Some(a) => r is Some && r->Some_0@.len() >= 1 && plain_keys(r->Some_0@) && join_dot(
                    texts(r->Some_0@),
                ) == a,
                None => r is None,
            },
    {
        proof {
            use_type_invariant(self);
        }
        let key = path.to_string();
        match assoc_index(&self.locals_rev, &key) {
            Some(i) => Some(Selector::from_path(self.locals_rev[i].1.as_str())),
            None => None,
        }
    }

    /// The path that `alias` names, if any.
    pub fn from_alias(&self, alias: &str) -> (r: Option<Selector>)
        ensures
            opt_sel(r) == obj_get(self.locals(), alias@),
    {
        proof {
            use_type_invariant(self);
        }
        let key = alias.to_owned();
        match assoc_index(&self.locals, &key) {
            Some(i) => Some(self.locals[i].1.copy()),
            None => None,
        }
    }
}

} // verus!
