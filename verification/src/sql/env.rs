//! The environment of a query: what each alias of the `FROM` clause stands
//! for, and the expansion of a selector that starts with an alias into the
//! full path it abbreviates.
use vstd::prelude::*;

use crate::sql::expr::{lemma_expr_unfold, Expr, ExprModel};
use crate::sql::selector::{
    node_models, node_text, root_node, stringify, NodeModel, Selector, SelectorNode,
};
use crate::value::{
    has_key, key_index, keys_distinct, lemma_insert_keeps_distinct, lemma_key_index_unique, obj_get,
    obj_insert, select_spec, PqlValue, ValueModel,
};

verus! {

broadcast use lemma_expr_unfold;

/// The aliases of a query, in the order they were bound, with distinct names.
#[derive(Debug, Default)]
pub struct Env {
    data: Vec<(String, Expr)>,
}

/// The model of an environment: each alias with what it stands for.
pub type EnvModel = Seq<(Seq<char>, ExprModel)>;

impl View for Env {
    type V = EnvModel;

    closed spec fn view(&self) -> EnvModel {
        self.data@.map_values(|p: (String, Expr)| (p.0@, p.1@))
    }
}

/// The path that alias `k` stands for, if `k` is bound to a selector.
pub open spec fn alias_path(m: EnvModel, k: Seq<char>) -> Option<Seq<NodeModel>> {
    match obj_get(m, k) {
        Some(ExprModel::Selector(s)) => Some(s),
        _ => None,
    }
}

/// The expansion of `sel` with at most `fuel` alias steps: while the first
/// node names an alias bound to a path, it is replaced by that path; the
/// nodes that follow are written as keys. `None` when the steps run out.
pub open spec fn expand_with(m: EnvModel, sel: Seq<NodeModel>, fuel: nat) -> Option<
    Seq<NodeModel>,
>
    decreases fuel,
{
    if sel.len() == 0 {
        Some(Seq::empty())
    } else {
        let tail = sel.drop_first().map_values(|n: NodeModel| stringify(n));
        match alias_path(m, node_text(sel[0])) {
            Some(p) => {
                if fuel == 0 {
                    None
                } else {
                    match expand_with(m, p, (fuel - 1) as nat) {
                        Some(e) => Some(e + tail),
                        None => None,
                    }
                }
            },
            None => Some(seq![stringify(sel[0])] + tail),
        }
    }
}

/// The full path of `sel`. A chain of aliases that never repeats one takes
/// at most as many steps as there are aliases, so `None` means the chain
/// runs in a circle (as in `FROM a.b AS a`).
pub open spec fn expansion(m: EnvModel, sel: Seq<NodeModel>) -> Option<Seq<NodeModel>> {
    expand_with(m, sel, m.len())
}

impl Env {
    #[verifier::type_invariant]
    pub open spec fn wf(self) -> bool {
        keys_distinct(self@)
    }

    /// An empty environment.
    pub fn new() -> (r: Env)
        ensures
            r@ == Seq::<(Seq<char>, ExprModel)>::empty(),
    {
        let r = Env { data: Vec::new() };
        assert(r@ =~= Seq::<(Seq<char>, ExprModel)>::empty());
        r
    }

    /// The number of aliases.
    pub fn len(&self) -> (r: usize)
        ensures
            r == self@.len(),
    {
        self.data.len()
    }

    fn index_of(&self, key: &String) -> (r: Option<usize>)
        ensures
            match r {
                Some(i) => i < self@.len() && has_key(self@, key@) && key_index(self@, key@) == i
                    && self@[i as int].0 == key@,
                None => !has_key(self@, key@),
            },
    {
        proof {
            use_type_invariant(self);
        }
        let mut i: usize = 0;
        while i < self.data.len()
            invariant
                i <= self.data@.len(),
                self@.len() == self.data@.len(),
                keys_distinct(self@),
                forall|j: int| 0 <= j < i ==> self@[j].0 != key@,
            decreases self.data@.len() - i,
        {
            if self.data[i].0 == *key {
                proof {
                    lemma_key_index_unique(self@, key@, i as int);
                }
                return Some(i);
            }
            i = i + 1;
        }
        None
    }

    /// Binds `alias` to `value`; an alias already bound keeps its place and
    /// takes the new value, and what it stood for is returned.
    pub fn insert(&mut self, alias: &str, value: Expr) -> (r: Option<Expr>)
        ensures
            final(self)@ == obj_insert(old(self)@, alias@, value@),
            match r {
                Some(v) => obj_get(old(self)@, alias@) == Some(v@),
                None => obj_get(old(self)@, alias@) is None,
            },
    {
        proof {
            use_type_invariant(&*self);
            lemma_insert_keeps_distinct(self@, alias@, value@);
        }
        let key = alias.to_owned();
        let ghost new_m = obj_insert(self@, key@, value@);
        let mut data: Vec<(String, Expr)> = Vec::new();
        match self.index_of(&key) {
            Some(i) => {
                std::mem::swap(&mut data, &mut self.data);
                let ghost before = data@;
                let old_pair = data.remove(i);
                data.insert(i, (key, value));
                assert(data@ =~= before.update(i as int, (key, value)));
                assert(data@.map_values(|p: (String, Expr)| (p.0@, p.1@)) =~= new_m);
                self.data = data;
                Some(old_pair.1)
            },
            None => {
                std::mem::swap(&mut data, &mut self.data);
                data.push((key, value));
                assert(data@.map_values(|p: (String, Expr)| (p.0@, p.1@)) =~= new_m);
                self.data = data;
                None
            },
        }
    }

    /// Binds `alias` to the path `selector`.
    pub fn insert_from_selector(&mut self, alias: &str, selector: Selector) -> (r: Option<Expr>)
        ensures
            final(self)@ == obj_insert(old(self)@, alias@, ExprModel::Selector(selector@)),
            match r {
                Some(v) => obj_get(old(self)@, alias@) == Some(v@),
                None => obj_get(old(self)@, alias@) is None,
            },
    {
        self.insert(alias, Expr::Selector(selector))
    }

    /// Binds `alias` to the value `value`.
    pub fn insert_from_pqlval(&mut self, alias: &str, value: PqlValue) -> (r: Option<Expr>)
        ensures
            final(self)@ == obj_insert(old(self)@, alias@, ExprModel::Value(value@)),
            match r {
                Some(v) => obj_get(old(self)@, alias@) == Some(v@),
                None => obj_get(old(self)@, alias@) is None,
            },
    {
        self.insert(alias, Expr::Value(value))
    }

    /// What `key` stands for, if it is bound.
    pub fn get(&self, key: &str) -> (r: Option<&Expr>)
        ensures
            match r {
                Some(v) => obj_get(self@, key@) == Some(v@),
                None => obj_get(self@, key@) is None,
            },
    {
        let k = key.to_owned();
        match self.index_of(&k) {
            Some(i) => Some(&self.data[i].1),
            None => None,
        }
    }

    /// The path that `key` stands for, if it is bound to a path.
    pub fn get_as_selector(&self, key: &str) -> (r: Option<&Selector>)
        ensures
            match r {
                Some(s) => alias_path(self@, key@) == Some(s@),
                None => alias_path(self@, key@) is None,
            },
    {
        match self.get(key) {
            Some(Expr::Selector(s)) => Some(s),
            _ => None,
        }
    }

    fn expand_fuel(&self, sel: &Selector, fuel: usize) -> (r: Option<Selector>)
        ensures
            match r {
                Some(x) => expand_with(self@, sel@, fuel as nat) == Some(x@),
                None => expand_with(self@, sel@, fuel as nat) is None,
            },
        decreases fuel,
    {
        match sel.split_first() {
            None => {
                let r = Selector { data: Vec::new() };
                assert(r@ =~= Seq::<NodeModel>::empty());
                Some(r)
            },
            Some((first, tail)) => {
                let head = first.to_string();
                let ghost t = sel@.drop_first().map_values(|n: NodeModel| stringify(n));
                let mut data: Vec<SelectorNode> = match self.get_as_selector(head.as_str()) {
                    Some(p) => {
                        if fuel == 0 {
                            return None;
                        }
                        match self.expand_fuel(p, fuel - 1) {
                            Some(e) => e.data,
                            None => {
                                return None;
                            },
                        }
                    },
                    None => {
                        let mut v: Vec<SelectorNode> = Vec::new();
                        v.push(SelectorNode::String(head));
                        v
                    },
                };
                let ghost first_part = node_models(data@);
                let mut k: usize = 0;
                while k < tail.data.len()
                    invariant
                        k <= tail.data@.len(),
                        tail@ == sel@.drop_first(),
                        t == sel@.drop_first().map_values(|n: NodeModel| stringify(n)),
                        node_models(data@) == first_part + t.take(k as int),
                    decreases tail.data@.len() - k,
                {
                    let ghost before = node_models(data@);
                    let txt = tail.data[k].to_string();
                    data.push(SelectorNode::String(txt));
                    assert(node_models(data@) =~= before.push(stringify(tail@[k as int])));
                    assert(t.take(k + 1) =~= t.take(k as int).push(t[k as int]));
                    k = k + 1;
                }
                assert(t.take(k as int) =~= t);
                let r = Selector { data };
                proof {
                    if alias_path(self@, node_text(sel@[0])) is None {
                        assert(first_part =~= seq![stringify(sel@[0])]);
                    }
                }
                Some(r)
            },
        }
    }

    /// Whether the alias chain of `sel` ends (see `expansion`).
    pub fn resolves(&self, sel: &Selector) -> (r: bool)
        ensures
            r == (expansion(self@, sel@) is Some),
    {
        self.expand_fuel(sel, self.data.len()).is_some()
    }

    /// The full path of `sel`, its aliases expanded.
    pub fn expand_fullpath_as_selector(&self, sel: &Selector) -> (r: Selector)
        requires
            expansion(self@, sel@) is Some,
        ensures
            expansion(self@, sel@) == Some(r@),
    {
        match self.expand_fuel(sel, self.data.len()) {
            Some(r) => r,
            None => Selector { data: Vec::new() },
        }
    }
}



/// No alias of `m` stands for the empty path (a `FROM` clause binds aliases
/// to paths of at least one node).
pub open spec fn paths_nonempty(m: EnvModel) -> bool {
    forall|i: int| 0 <= i < m.len() && (#[trigger] m[i].1) is Selector ==> m[i].1->Selector_0.len() > 0
}

/// An expansion is made of keys, is empty only for the empty selector, and
/// does not start with an alias that stands for a path.
proof fn lemma_expand_with_shape(m: EnvModel, sel: Seq<NodeModel>, fuel: nat)
    requires
        paths_nonempty(m),
        expand_with(m, sel, fuel) is Some,
    ensures
        ({
            let e = expand_with(m, sel, fuel)->Some_0;
            &&& (e.len() == 0) == (sel.len() == 0)
            &&& e.len() > 0 ==> alias_path(m, node_text(e[0])) is None
            &&& forall|k: int| 0 <= k < e.len() ==> (#[trigger] e[k]) is Str
        }),
    decreases fuel,
{
    if sel.len() > 0 {
        let tail = sel.drop_first().map_values(|n: NodeModel| stringify(n));
        let e = expand_with(m, sel, fuel)->Some_0;
        match alias_path(m, node_text(sel[0])) {
            Some(p) => {
                let k = key_index(m, node_text(sel[0]));
                assert(m[k].1 is Selector);
                lemma_expand_with_shape(m, p, (fuel - 1) as nat);
                let e1 = expand_with(m, p, (fuel - 1) as nat)->Some_0;
                assert(e == e1 + tail);
                assert forall|k: int| 0 <= k < e.len() implies (#[trigger] e[k]) is Str by {
                    if k < e1.len() {
                        assert(e[k] == e1[k]);
                    } else {
                        assert(e[k] == tail[k - e1.len()]);
                    }
                }
            },
            None => {
                assert forall|k: int| 0 <= k < e.len() implies (#[trigger] e[k]) is Str by {
                    if k > 0 {
                        assert(e[k] == tail[k - 1]);
                    }
                }
            },
        }
    }
}

/// Expanding an expanded path changes nothing, when no alias stands for the
/// empty path.
pub proof fn lemma_expansion_idempotent(m: EnvModel, sel: Seq<NodeModel>)
    requires
        paths_nonempty(m),
        expansion(m, sel) is Some,
    ensures
        expansion(m, expansion(m, sel)->Some_0) == expansion(m, sel),
{
    let e = expansion(m, sel)->Some_0;
    lemma_expand_with_shape(m, sel, m.len());
    if e.len() > 0 {
        let tail = e.drop_first().map_values(|n: NodeModel| stringify(n));
        assert(expand_with(m, e, m.len()) == Some(seq![stringify(e[0])] + tail));
        assert(seq![stringify(e[0])] + tail =~= e) by {
            assert forall|k: int| 0 <= k < e.len() implies (seq![stringify(e[0])] + tail)[k] == e[k] by {
                assert(e[k] is Str);
                if k > 0 {
                    assert(tail[k - 1] == stringify(e[k]));
                }
            }
        }
    }
}

/// The full path of a selector whose first node is expanded: what
/// `expand_fullpath` gives.
pub open spec fn fullpath(m: EnvModel, sel: Seq<NodeModel>) -> Option<Seq<NodeModel>> {
    if sel.len() == 0 {
        None
    } else {
        match expansion(m, seq![sel[0]]) {
            Some(e) => Some(e + sel.drop_first()),
            None => None,
        }
    }
}

/// The absolute path of a selector: its full path, under the root key
/// unless it already starts there.
pub open spec fn abspath(m: EnvModel, sel: Seq<NodeModel>) -> Option<Seq<NodeModel>> {
    match fullpath(m, sel) {
        Some(f) => Some(
            if sel[0] == root_node() {
                f
            } else {
                seq![root_node()] + f
            },
        ),
        None => None,
    }
}

/// The outcome of evaluating `sel` in `m`, with at most `depth` further
/// evaluations: `None` where evaluation would fail outright, else the
/// value found, if any. The first node of the full path names a binding:
/// a value is selected by the rest of the path; a path is evaluated in
/// turn; an unbound name is looked up under the root key.
pub open spec fn eval_spec(m: EnvModel, sel: Seq<NodeModel>, depth: nat) -> Option<
    Option<ValueModel>,
>
    decreases depth,
{
    match fullpath(m, sel) {
        None => None,
        Some(full) => {
            if full.len() == 0 {
                None
            } else {
                let tail = full.drop_first();
                match obj_get(m, node_text(full[0])) {
                    Some(ExprModel::Value(v)) => {
                        if tail.len() > 0 {
                            select_spec(v, tail)
                        } else {
                            Some(Some(v))
                        }
                    },
                    Some(ExprModel::Selector(s)) => {
                        if depth == 0 {
                            None
                        } else {
                            match fullpath(m, s) {
                                Some(f) => eval_spec(m, f, (depth - 1) as nat),
                                None => None,
                            }
                        }
                    },
                    Some(_) => None,
                    None => {
                        if depth == 0 {
                            None
                        } else {
                            match abspath(m, sel) {
                                Some(a) => eval_spec(m, a, (depth - 1) as nat),
                                None => None,
                            }
                        }
                    },
                }
            }
        },
    }
}

/// Evaluation of `sel` in `m` ends within the depth that `evaluate` allows.
pub open spec fn evaluates(m: EnvModel, sel: Seq<NodeModel>) -> bool {
    eval_spec(m, sel, m.len() + 2) is Some
}

fn concat_selectors(a: Selector, b: &Selector) -> (r: Selector)
    ensures
        r@ == a@ + b@,
{
    let mut data = a.data;
    let ghost da = node_models(data@);
    let mut rest = b.to_vec();
    let ghost dr = node_models(rest@);
    data.append(&mut rest);
    assert(node_models(data@) =~= da + dr);
    Selector { data }
}

/// The model of an optional selector.
pub open spec fn opt_sel(r: Option<Selector>) -> Option<Seq<NodeModel>> {
    match r {
        Some(x) => Some(x@),
        None => None,
    }
}

/// The model of an outcome of evaluation or selection: `None` where it
/// fails outright, else the value found, if any.
pub open spec fn found_model(r: Option<Option<PqlValue>>) -> Option<Option<ValueModel>> {
    match r {
        Some(Some(x)) => Some(Some(x@)),
        Some(None) => Some(None),
        None => None,
    }
}

impl Selector {
    /// The selector whose first node is replaced by its full path; `None`
    /// for the empty selector or a circle of aliases.
    pub fn try_expand_fullpath(&self, env: &Env) -> (r: Option<Selector>)
        ensures
            opt_sel(r) == fullpath(env@, self@),
    {
        match self.split_first() {
            Some((head, tail)) => {
                let mut hv: Vec<SelectorNode> = Vec::new();
                hv.push(head);
                let hs = Selector { data: hv };
                assert(hs@ =~= seq![self@[0]]);
                match env.expand_fuel(&hs, env.len()) {
                    Some(e) => Some(concat_selectors(e, &tail)),
                    None => None,
                }
            },
            None => None,
        }
    }

    /// The selector whose first node is replaced by its full path.
    pub fn expand_fullpath(&self, env: &Env) -> (r: Selector)
        requires
            fullpath(env@, self@) is Some,
        ensures
            fullpath(env@, self@) == Some(r@),
    {
        match self.try_expand_fullpath(env) {
            Some(r) => r,
            None => Selector { data: Vec::new() },
        }
    }

    /// The selector with all its aliases expanded.
    pub fn expand_fullpath2(&self, env: &Env) -> (r: Selector)
        requires
            expansion(env@, self@) is Some,
        ensures
            expansion(env@, self@) == Some(r@),
    {
        env.expand_fullpath_as_selector(self)
    }

    /// The full path under the root key (see `abspath`); `None` where there
    /// is no full path.
    pub fn try_expand_abspath(&self, env: &Env) -> (r: Option<Selector>)
        ensures
            opt_sel(r) == abspath(env@, self@),
    {
        match self.try_expand_fullpath(env) {
            None => None,
            Some(f) => {
                if self.data[0].is_root() {
                    Some(f)
                } else {
                    let mut hv: Vec<SelectorNode> = Vec::new();
                    hv.push(SelectorNode::default());
                    let root = Selector { data: hv };
                    assert(root@ =~= seq![root_node()]);
                    Some(concat_selectors(root, &f))
                }
            },
        }
    }

    /// The full path under the root key (see `abspath`).
    pub fn expand_abspath(&self, env: &Env) -> (r: Selector)
        requires
            fullpath(env@, self@) is Some,
        ensures
            abspath(env@, self@) == Some(r@),
    {
        match self.try_expand_abspath(env) {
            Some(r) => r,
            None => Selector { data: Vec::new() },
        }
    }

    /// Evaluates the selector in `env` (see `eval_spec`).
    pub fn evaluate(&self, env: &Env) -> (r: Option<PqlValue>)
        requires
            evaluates(env@, self@),
        ensures
            eval_spec(env@, self@, (env@.len() + 2) as nat) == Some(
                match r {
                    Some(x) => Some(x@),
                    None => None,
                },
            ),
    {
        match self.try_evaluate(env) {
            Some(r) => r,
            None => None,
        }
    }

    /// Evaluates the selector in `env`, reporting `None` where evaluation
    /// fails outright (see `eval_spec`).
    pub fn try_evaluate(&self, env: &Env) -> (r: Option<Option<PqlValue>>)
        ensures
            eval_spec(env@, self@, (env@.len() + 2) as nat) == found_model(r),
    {
        self.evaluate_depth(env, env.len() as u128 + 2)
    }

    fn evaluate_depth(&self, env: &Env, depth: u128) -> (r: Option<Option<PqlValue>>)
        ensures
            eval_spec(env@, self@, depth as nat) == found_model(r),
        decreases depth,
    {
        let full = match self.try_expand_fullpath(env) {
            Some(f) => f,
            None => {
                return None;
            },
        };
        match full.split_first() {
            None => None,
            Some((head, tail)) => {
                let name = head.to_string();
                match env.get(name.as_str()) {
                    Some(Expr::Value(v)) => {
                        if tail.len() > 0 {
                            v.try_select_by_selector(&tail)
                        } else {
                            Some(Some(v.copy()))
                        }
                    },
                    Some(Expr::Selector(s)) => {
                        if depth == 0 {
                            return None;
                        }
                        match s.try_expand_fullpath(env) {
                            Some(f) => f.evaluate_depth(env, depth - 1),
                            None => None,
                        }
                    },
                    Some(_) => None,
                    None => {
                        if depth == 0 {
                            return None;
                        }
                        match self.try_expand_abspath(env) {
                            Some(a) => a.evaluate_depth(env, depth - 1),
                            None => None,
                        }
                    },
                }
            },
        }
    }
}

impl Env {
    /// The expression with its path expanded: a path becomes its full path,
    /// a value stays as it is.
    pub fn expand_fullpath(&self, value: &Expr) -> (r: Expr)
        requires
            value@ is Selector ==> expansion(self@, value@->Selector_0) is Some,
            value@ is Selector || value@ is Value,
        ensures
            match value@ {
                ExprModel::Selector(s) => r@ == ExprModel::Selector(expansion(self@, s)->Some_0),
                _ => r@ == value@,
            },
    {
        match value {
            Expr::Selector(s) => Expr::Selector(self.expand_fullpath_as_selector(s)),
            Expr::Value(v) => Expr::Value(v.copy()),
            _ => Expr::Star,
        }
    }
}

} // verus!
