//! The PartiQL data model: null, strings, booleans, integers, decimal
//! floats, timestamps, arrays (and bags), and objects whose keys keep their
//! insertion order.
use vstd::prelude::*;

use crate::sql::selector::{NodeModel, Selector, SelectorNode};

verus! {

/// A finite decimal number `(-1)^negative * digits * 10^exponent`, where
/// `digits` is read as a base-10 natural number (most significant first).
#[derive(Debug, Clone, PartialEq)]
pub struct PqlFloat {
    pub negative: bool,
    pub digits: Vec<u8>,
    pub exponent: i64,
}

/// The mathematical content of a [`PqlFloat`].
pub ghost struct FloatModel {
    pub negative: bool,
    pub digits: Seq<u8>,
    pub exponent: i64,
}

impl View for PqlFloat {
    type V = FloatModel;

    open spec fn view(&self) -> FloatModel {
        FloatModel { negative: self.negative, digits: self.digits@, exponent: self.exponent }
    }
}

/// The canonical form of a decimal: decimal digits only, no leading or
/// trailing zero digit, and zero written as no digits, positive, exponent 0.
pub open spec fn float_canonical(f: FloatModel) -> bool {
    &&& forall|i: int| 0 <= i < f.digits.len() ==> #[trigger] f.digits[i] < 10
    &&& f.digits.len() == 0 ==> !f.negative && f.exponent == 0
    &&& f.digits.len() > 0 ==> f.digits[0] != 0 && f.digits.last() != 0
}

impl PqlFloat {
    /// A copy of the number.
    pub fn copy(&self) -> (r: PqlFloat)
        ensures
            r@ == self@,
    {
        PqlFloat { negative: self.negative, digits: self.digits.clone(), exponent: self.exponent }
    }
}

/// A PartiQL value.
#[derive(Debug, PartialEq)]
pub enum PqlValue {
    Null,
    Str(String),
    Boolean(bool),
    Int(i64),
    Float(PqlFloat),
    /// Seconds since the Unix epoch.
    DateTime(i64),
    Array(Vec<PqlValue>),
    Object(PqlObject),
}

/// An object: entries in insertion order, with pairwise distinct keys.
#[derive(Debug, PartialEq)]
pub struct PqlObject {
    entries: Vec<(String, PqlValue)>,
}

/// The mathematical content of a [`PqlValue`].
pub ghost enum ValueModel {
    Null,
    Str(Seq<char>),
    Boolean(bool),
    Int(i64),
    Float(FloatModel),
    DateTime(i64),
    Array(Seq<ValueModel>),
    Object(Seq<(Seq<char>, ValueModel)>),
}

/// The model of an object: its entries, in order.
pub type ObjectModel = Seq<(Seq<char>, ValueModel)>;

pub closed spec fn value_model(v: PqlValue) -> ValueModel
    decreases v,
{
    match v {
        PqlValue::Null => ValueModel::Null,
        PqlValue::Str(s) => ValueModel::Str(s@),
        PqlValue::Boolean(b) => ValueModel::Boolean(b),
        PqlValue::Int(i) => ValueModel::Int(i),
        PqlValue::Float(f) => ValueModel::Float(f@),
        PqlValue::DateTime(t) => ValueModel::DateTime(t),
        PqlValue::Array(a) => ValueModel::Array(
            Seq::new(
                a@.len(),
                |i: int|
                    if 0 <= i < a@.len() {
                        value_model(a@[i])
                    } else {
                        ValueModel::Null
                    },
            ),
        ),
        PqlValue::Object(o) => ValueModel::Object(
            Seq::new(
                o.entries@.len(),
                |i: int|
                    if 0 <= i < o.entries@.len() {
                        (o.entries@[i].0@, value_model(o.entries@[i].1))
                    } else {
                        (Seq::empty(), ValueModel::Null)
                    },
            ),
        ),
    }
}

impl View for PqlValue {
    type V = ValueModel;

    open spec fn view(&self) -> ValueModel {
        value_model(*self)
    }
}

impl View for PqlObject {
    type V = ObjectModel;

    closed spec fn view(&self) -> ObjectModel {
        entries_model(self.entries@)
    }
}

/// The model of a sequence of object entries.
pub open spec fn entries_model(e: Seq<(String, PqlValue)>) -> ObjectModel {
    e.map_values(|p: (String, PqlValue)| (p.0@, p.1@))
}

/// The models of a sequence of values.
pub open spec fn models(s: Seq<PqlValue>) -> Seq<ValueModel> {
    s.map_values(|x: PqlValue| x@)
}

/// How the model of a value is made from the models of its parts.
pub broadcast proof fn lemma_view_unfold(v: PqlValue)
    ensures
        #[trigger] v@ == match v {
            PqlValue::Null => ValueModel::Null,
            PqlValue::Str(s) => ValueModel::Str(s@),
            PqlValue::Boolean(b) => ValueModel::Boolean(b),
            PqlValue::Int(i) => ValueModel::Int(i),
            PqlValue::Float(f) => ValueModel::Float(f@),
            PqlValue::DateTime(t) => ValueModel::DateTime(t),
            PqlValue::Array(a) => ValueModel::Array(models(a@)),
            PqlValue::Object(o) => ValueModel::Object(o@),
        },
{
    match v {
        PqlValue::Array(a) => {
            match value_model(v) {
                ValueModel::Array(s) => {
                    assert(s =~= models(a@));
                },
                _ => {},
            }
        },
        PqlValue::Object(o) => {
            match value_model(v) {
                ValueModel::Object(s) => {
                    assert(s =~= o@);
                },
                _ => {},
            }
        },
        _ => {},
    }
}

/// The keys of an object model are pairwise distinct.
pub open spec fn keys_distinct<V>(m: Seq<(Seq<char>, V)>) -> bool {
    forall|i: int, j: int| 0 <= i < j < m.len() ==> m[i].0 != m[j].0
}

/// Whether an object model has an entry with key `k`.
pub open spec fn has_key<V>(m: Seq<(Seq<char>, V)>, k: Seq<char>) -> bool {
    exists|i: int| 0 <= i < m.len() && m[i].0 == k
}

/// The position of key `k` in an object model (meaningful when `has_key`).
pub open spec fn key_index<V>(m: Seq<(Seq<char>, V)>, k: Seq<char>) -> int {
    choose|i: int| 0 <= i < m.len() && m[i].0 == k
}

/// The value that an object model holds under key `k`.
pub open spec fn obj_get<V>(m: Seq<(Seq<char>, V)>, k: Seq<char>) -> Option<V> {
    if has_key(m, k) {
        Some(m[key_index(m, k)].1)
    } else {
        None
    }
}

/// The object model after inserting `v` under `k`: an existing entry keeps
/// its position and takes the new value; a new key goes to the end.
pub open spec fn obj_insert<V>(m: Seq<(Seq<char>, V)>, k: Seq<char>, v: V) -> Seq<(Seq<char>, V)> {
    if has_key(m, k) {
        m.update(key_index(m, k), (k, v))
    } else {
        m.push((k, v))
    }
}

/// The keys of an object model, in order.
pub open spec fn obj_keys<V>(m: Seq<(Seq<char>, V)>) -> Seq<Seq<char>> {
    m.map_values(|e: (Seq<char>, V)| e.0)
}

/// If keys are distinct, `key_index` finds the one entry with key `k`.
pub proof fn lemma_key_index_unique<V>(m: Seq<(Seq<char>, V)>, k: Seq<char>, i: int)
    requires
        keys_distinct(m),
        0 <= i < m.len(),
        m[i].0 == k,
    ensures
        has_key(m, k),
        key_index(m, k) == i,
{
    let j = key_index(m, k);
    assert(0 <= j < m.len() && m[j].0 == k);
    if j < i {
        assert(m[j].0 != m[i].0);
    } else if i < j {
        assert(m[i].0 != m[j].0);
    }
}

/// Inserting keeps the keys of an object model distinct.
pub proof fn lemma_insert_keeps_distinct<V>(m: Seq<(Seq<char>, V)>, k: Seq<char>, v: V)
    requires
        keys_distinct(m),
    ensures
        keys_distinct(obj_insert(m, k, v)),
{
    let r = obj_insert(m, k, v);
    if has_key(m, k) {
        let idx = key_index(m, k);
        assert forall|i: int, j: int| 0 <= i < j < r.len() implies r[i].0 != r[j].0 by {
            if i != idx && j != idx {
                assert(m[i].0 != m[j].0);
            } else if i == idx {
                assert(m[j].0 != m[idx].0);
            } else {
                assert(m[i].0 != m[idx].0);
            }
        }
    } else {
        assert forall|i: int, j: int| 0 <= i < j < r.len() implies r[i].0 != r[j].0 by {
            if j == m.len() {
                assert(m[i].0 != k);
            } else {
                assert(m[i].0 != m[j].0);
            }
        }
    }
}

/// Reading back a key just written gives the value written (the law of
/// read after write for objects).
pub proof fn lemma_get_insert_same<V>(m: Seq<(Seq<char>, V)>, k: Seq<char>, v: V)
    requires
        keys_distinct(m),
    ensures
        obj_get(obj_insert(m, k, v), k) == Some(v),
{
    let r = obj_insert(m, k, v);
    lemma_insert_keeps_distinct(m, k, v);
    if has_key(m, k) {
        let idx = key_index(m, k);
        lemma_key_index_unique(r, k, idx);
    } else {
        lemma_key_index_unique(r, k, m.len() as int);
    }
}

/// Writing one key leaves the value under any other key as it was.
pub proof fn lemma_get_insert_other<V>(m: Seq<(Seq<char>, V)>, k: Seq<char>, v: V, k2: Seq<char>)
    requires
        keys_distinct(m),
        k2 != k,
    ensures
        obj_get(obj_insert(m, k, v), k2) == obj_get(m, k2),
{
    let r = obj_insert(m, k, v);
    lemma_insert_keeps_distinct(m, k, v);
    if has_key(m, k2) {
        let i2 = key_index(m, k2);
        lemma_key_index_unique(r, k2, i2);
    } else {
        if has_key(r, k2) {
            let j = key_index(r, k2);
            if j < m.len() {
                assert(m[j].0 == k2);
            }
        }
    }
}

impl PqlObject {
    /// Well-formedness: the keys are pairwise distinct.
    #[verifier::type_invariant]
    pub open spec fn wf(self) -> bool {
        keys_distinct(self@)
    }

    /// An empty object.
    pub fn new() -> (r: PqlObject)
        ensures
            r@ == Seq::<(Seq<char>, ValueModel)>::empty(),
    {
        let r = PqlObject { entries: Vec::new() };
        assert(r@ =~= Seq::<(Seq<char>, ValueModel)>::empty());
        r
    }

    /// The object of `entries`, whose keys are pairwise distinct.
    pub fn from_entries(entries: Vec<(String, PqlValue)>) -> (r: PqlObject)
        requires
            keys_distinct(entries_model(entries@)),
        ensures
            r@ == entries_model(entries@),
    {
        PqlObject { entries }
    }

    /// The number of entries.
    pub fn len(&self) -> (r: usize)
        ensures
            r == self@.len(),
    {
        self.entries.len()
    }

    /// Whether the object has no entry.
    pub fn is_empty(&self) -> (r: bool)
        ensures
            r == (self@.len() == 0),
    {
        self.entries.len() == 0
    }

    /// The position of `key`, if the object has it.
    pub fn index_of(&self, key: &String) -> (r: Option<usize>)
        ensures
            match r {
                Some(i) => i < self@.len() && has_key(self@, key@) && key_index(self@, key@) == i
                    && self@[i as int].0 == key@,
                None => !has_key(self@, key@),
            },
    {
        proof {
            use_type_invariant(self);
        }
        let mut i: usize = 0;
        while i < self.entries.len()
            invariant
                i <= self.entries@.len(),
                self@.len() == self.entries@.len(),
                keys_distinct(self@),
                forall|j: int| 0 <= j < i ==> self@[j].0 != key@,
            decreases self.entries@.len() - i,
        {
            if self.entries[i].0 == *key {
                proof {
                    lemma_key_index_unique(self@, key@, i as int);
                }
                return Some(i);
            }
            i = i + 1;
        }
        None
    }

    /// The value under `key`, if any.
    pub fn get(&self, key: &String) -> (r: Option<&PqlValue>)
        ensures
            match r {
                Some(v) => obj_get(self@, key@) == Some(v@),
                None => obj_get(self@, key@) is None,
            },
    {
        match self.index_of(key) {
            Some(i) => Some(&self.entries[i].1),
            None => None,
        }
    }

    /// The entry at position `i`.
    pub fn get_index(&self, i: usize) -> (r: (&String, &PqlValue))
        requires
            i < self@.len(),
        ensures
            r.0@ == self@[i as int].0,
            r.1@ == self@[i as int].1,
    {
        let e = &self.entries[i];
        (&e.0, &e.1)
    }

    /// Inserts `value` under `key`: an existing entry keeps its position and
    /// takes the new value, whose predecessor is returned; a new key is
    /// appended.
    pub fn insert(&mut self, key: String, value: PqlValue) -> (r: Option<PqlValue>)
        ensures
            final(self)@ == obj_insert(old(self)@, key@, value@),
            match r {
                Some(v) => obj_get(old(self)@, key@) == Some(v@),
                None => obj_get(old(self)@, key@) is None,
            },
    {
        proof {
            use_type_invariant(&*self);
            lemma_insert_keeps_distinct(self@, key@, value@);
        }
        let ghost old_m = self@;
        let ghost new_m = obj_insert(self@, key@, value@);
        match self.index_of(&key) {
            Some(i) => {
                let mut entries: Vec<(String, PqlValue)> = Vec::new();
                std::mem::swap(&mut entries, &mut self.entries);
                let ghost before = entries@;
                let old_pair = entries.remove(i);
                entries.insert(i, (key, value));
                assert(entries@ =~= before.update(i as int, (key, value)));
                assert(entries_model(entries@) =~= new_m);
                self.entries = entries;
                assert(self@ =~= new_m);
                Some(old_pair.1)
            },
            None => {
                let mut entries: Vec<(String, PqlValue)> = Vec::new();
                std::mem::swap(&mut entries, &mut self.entries);
                entries.push((key, value));
                assert(entries_model(entries@) =~= new_m);
                self.entries = entries;
                assert(self@ =~= new_m);
                None
            },
        }
    }

    /// The entries, in order.
    pub fn into_entries(self) -> (r: Vec<(String, PqlValue)>)
        ensures
            r@.len() == self@.len(),
            forall|i: int|
                0 <= i < r@.len() ==> (#[trigger] r@[i]).0@ == self@[i].0 && r@[i].1@
                    == self@[i].1,
    {
        self.entries
    }

    /// A copy of the object.
    pub fn copy(&self) -> (r: PqlObject)
        ensures
            r@ == self@,
        decreases self, 0nat,
    {
        proof {
            use_type_invariant(self);
        }
        let mut entries: Vec<(String, PqlValue)> = Vec::new();
        let mut i: usize = 0;
        while i < self.entries.len()
            invariant
                i <= self.entries@.len(),
                entries@.len() == i,
                forall|j: int|
                    0 <= j < i ==> (#[trigger] entries@[j]).0@ == self.entries@[j].0@
                        && entries@[j].1@ == self.entries@[j].1@,
            decreases self.entries@.len() - i,
        {
            let e = &self.entries[i];
            let k = e.0.clone();
            let v = e.1.copy();
            entries.push((k, v));
            i = i + 1;
        }
        assert(entries_model(entries@) =~= self@);
        let r = PqlObject { entries };
        r
    }
}

impl PqlValue {
    /// A copy of the value.
    pub fn copy(&self) -> (r: PqlValue)
        ensures
            r@ == self@,
        decreases self, 1nat,
    {
        broadcast use lemma_view_unfold;

        match self {
            PqlValue::Null => PqlValue::Null,
            PqlValue::Str(s) => PqlValue::Str(s.clone()),
            PqlValue::Boolean(b) => PqlValue::Boolean(*b),
            PqlValue::Int(i) => PqlValue::Int(*i),
            PqlValue::Float(f) => PqlValue::Float(f.copy()),
            PqlValue::DateTime(t) => PqlValue::DateTime(*t),
            PqlValue::Array(a) => PqlValue::Array(copy_values(a)),
            PqlValue::Object(o) => PqlValue::Object(o.copy()),
        }
    }
}

/// A copy of a list of values.
pub fn copy_values(a: &Vec<PqlValue>) -> (r: Vec<PqlValue>)
    ensures
        models(r@) == models(a@),
    decreases a, 0nat,
{
    let mut out: Vec<PqlValue> = Vec::new();
    let mut i: usize = 0;
    while i < a.len()
        invariant
            i <= a@.len(),
            out@.len() == i,
            forall|j: int| 0 <= j < i ==> (#[trigger] out@[j])@ == a@[j]@,
        decreases a@.len() - i,
    {
        out.push(a[i].copy());
        i = i + 1;
    }
    assert(models(out@) =~= models(a@));
    out
}

} // verus!

verus! {

/// The outcome of selecting `s` from `v`: `None` where the selection would
/// fail outright (a negative index into an array), else the selected value
/// if there is one.
///
/// An object is entered by the key of the first node (an index node finds
/// nothing in an object); an index node takes one element of an array and
/// ends the selection there; otherwise the selection is applied to every
/// element of an array, keeping what is found; any other value is selected
/// by any selector.
pub open spec fn select_spec(v: ValueModel, s: Seq<NodeModel>) -> Option<Option<ValueModel>>
    decreases v,
{
    match v {
        ValueModel::Object(m) => {
            if s.len() == 0 {
                Some(Some(v))
            } else {
                match s[0] {
                    NodeModel::Str(k) => {
                        if has_key(m, k) {
                            let i = key_index(m, k);
                            if 0 <= i < m.len() {
                                select_spec(m[i].1, s.drop_first())
                            } else {
                                Some(None)
                            }
                        } else {
                            Some(None)
                        }
                    },
                    NodeModel::Num(_) => Some(None),
                }
            }
        },
        ValueModel::Array(a) => {
            if s.len() > 0 && s[0] is Num {
                let i = s[0]->Num_0;
                if i < 0 {
                    None
                } else if i < a.len() {
                    Some(Some(a[i as int]))
                } else {
                    Some(None)
                }
            } else {
                match select_each(a, s) {
                    Some(r) => Some(Some(ValueModel::Array(r))),
                    None => None,
                }
            }
        },
        _ => Some(Some(v)),
    }
}

/// Applies `select_spec` to each element, keeping what is found; `None`
/// where it fails for some element.
pub open spec fn select_each(a: Seq<ValueModel>, s: Seq<NodeModel>) -> Option<Seq<ValueModel>>
    decreases a,
{
    if a.len() == 0 {
        Some(Seq::empty())
    } else {
        match (select_each(a.drop_last(), s), select_spec(a.last(), s)) {
            (Some(r), Some(Some(x))) => Some(r.push(x)),
            (Some(r), Some(None)) => Some(r),
            _ => None,
        }
    }
}

} // verus!

verus! {

/// `select_each` fails where it fails on a prefix.
pub proof fn lemma_select_each_none(a: Seq<ValueModel>, s: Seq<NodeModel>, j: int)
    requires
        0 <= j <= a.len(),
        select_each(a.take(j), s) is None,
    ensures
        select_each(a, s) is None,
    decreases a.len(),
{
    if j < a.len() {
        assert(a.drop_last().take(j) =~= a.take(j));
        lemma_select_each_none(a.drop_last(), s, j);
    } else {
        assert(a.take(j) =~= a);
    }
}

/// The value under `key` in an object model.
pub open spec fn get_spec(v: ValueModel, key: Seq<char>) -> Option<ValueModel> {
    match v {
        ValueModel::Object(m) => obj_get(m, key),
        _ => None,
    }
}

/// The value at the end of `path`, each step a key of an object.
pub open spec fn get_path_spec(v: ValueModel, path: Seq<Seq<char>>) -> Option<ValueModel>
    decreases path.len(),
{
    if path.len() == 0 {
        Some(v)
    } else {
        match get_spec(v, path[0]) {
            Some(x) => get_path_spec(x, path.drop_first()),
            None => None,
        }
    }
}

/// The value selected by one node: the key of an object.
pub open spec fn select_key_spec(v: ValueModel, key: NodeModel) -> Option<ValueModel> {
    match (v, key) {
        (ValueModel::Object(m), NodeModel::Str(k)) => obj_get(m, k),
        _ => None,
    }
}

impl PqlValue {
    /// The value under `key`, if this is an object that has it.
    pub fn get(self, key: &str) -> (r: Option<PqlValue>)
        ensures
            match r {
                Some(x) => get_spec(self@, key@) == Some(x@),
                None => get_spec(self@, key@) is None,
            },
    {
        broadcast use lemma_view_unfold;

        match &self {
            PqlValue::Object(o) => {
                let k = key.to_owned();
                match o.get(&k) {
                    Some(x) => Some(x.copy()),
                    None => None,
                }
            },
            _ => None,
        }
    }

    /// The value at the end of the key path `path`, which is not empty.
    pub fn get_path(self, path: &[&str]) -> (r: Option<PqlValue>)
        requires
            path@.len() > 0,
        ensures
            match r {
                Some(x) => get_path_spec(self@, path@.map_values(|k: &str| k@)) == Some(x@),
                None => get_path_spec(self@, path@.map_values(|k: &str| k@)) is None,
            },
    {
        let ghost keys = path@.map_values(|k: &str| k@);
        let mut cur = self;
        let mut i: usize = 0;
        assert(keys.skip(0) =~= keys);
        while i < path.len()
            invariant
                i <= path@.len(),
                keys == path@.map_values(|k: &str| k@),
                get_path_spec(self@, keys) == get_path_spec(cur@, keys.skip(i as int)),
            decreases path@.len() - i,
        {
            assert(keys.skip(i as int).drop_first() =~= keys.skip(i + 1));
            match cur.get(path[i]) {
                Some(x) => {
                    cur = x;
                },
                None => {
                    return None;
                },
            }
            i = i + 1;
        }
        assert(keys.skip(i as int) =~= Seq::<Seq<char>>::empty());
        Some(cur)
    }

    /// The value under the key node `key`, if this is an object that has it.
    pub fn select_by_key(&self, key: &SelectorNode) -> (r: Option<PqlValue>)
        ensures
            match r {
                Some(x) => select_key_spec(self@, key@) == Some(x@),
                None => select_key_spec(self@, key@) is None,
            },
    {
        broadcast use lemma_view_unfold;

        match (self, key) {
            (PqlValue::Object(o), SelectorNode::String(k)) => match o.get(k) {
                Some(x) => Some(x.copy()),
                None => None,
            },
            _ => None,
        }
    }

    /// Selects `selector` from this value (see `select_spec`).
    pub fn select_by_selector(&self, selector: &Selector) -> (r: Option<PqlValue>)
        requires
            select_spec(self@, selector@) is Some,
        ensures
            select_spec(self@, selector@) == Some(
                match r {
                    Some(x) => Some(x@),
                    None => None,
                },
            ),
    {
        match self.try_select_by_selector(selector) {
            Some(r) => r,
            None => None,
        }
    }

    /// Selects `selector` from this value, reporting `None` where the
    /// selection fails outright (see `select_spec`).
    pub fn try_select_by_selector(&self, selector: &Selector) -> (r: Option<Option<PqlValue>>)
        ensures
            select_spec(self@, selector@) == match r {
                Some(Some(x)) => Some(Some(x@)),
                Some(None) => Some(None),
                None => None,
            },
    {
        assert(selector@.skip(0) =~= selector@);
        self.select_from(selector, 0)
    }

    fn select_from(&self, sel: &Selector, pos: usize) -> (r: Option<Option<PqlValue>>)
        requires
            pos <= sel@.len(),
        ensures
            select_spec(self@, sel@.skip(pos as int)) == match r {
                Some(Some(x)) => Some(Some(x@)),
                Some(None) => Some(None),
                None => None,
            },
        decreases self@,
    {
        broadcast use lemma_view_unfold;

        let ghost s = sel@.skip(pos as int);
        match self {
            PqlValue::Object(o) => {
                if pos == sel.data.len() {
                    Some(Some(self.copy()))
                } else {
                    assert(s[0] == sel@[pos as int]);
                    assert(s.drop_first() =~= sel@.skip(pos + 1));
                    match &sel.data[pos] {
                        SelectorNode::String(k) => {
                            proof {
                                use_type_invariant(o);
                            }
                            match o.index_of(k) {
                                Some(i) => {
                                    let (_, x) = o.get_index(i);
                                    x.select_from(sel, pos + 1)
                                },
                                None => Some(None),
                            }
                        },
                        SelectorNode::Number(_) => Some(None),
                    }
                }
            },
            PqlValue::Array(a) => {
                if pos < sel.data.len() && matches!(sel.data[pos], SelectorNode::Number(_)) {
                    assert(s[0] == sel@[pos as int]);
                    let i = match sel.data[pos] {
                        SelectorNode::Number(i) => i,
                        SelectorNode::String(_) => 0,
                    };
                    if i < 0 {
                        None
                    } else if (i as u64) < (a.len() as u64) {
                        Some(Some(a[i as usize].copy()))
                    } else {
                        Some(None)
                    }
                } else {
                    let ghost am = models(a@);
                    assert(self@ == ValueModel::Array(am));
                    let mut out: Vec<PqlValue> = Vec::new();
                    let mut j: usize = 0;
                    assert(am.take(0) =~= Seq::<ValueModel>::empty());
                    assert(models(out@) =~= Seq::<ValueModel>::empty());
                    while j < a.len()
                        invariant
                            j <= a@.len(),
                            am == models(a@),
                            self@ == ValueModel::Array(am),
                            pos <= sel@.len(),
                            s == sel@.skip(pos as int),
                            select_each(am.take(j as int), s) == Some(models(out@)),
                        decreases a@.len() - j,
                    {
                        proof {
                            assert(am.take(j + 1).drop_last() =~= am.take(j as int));
                            assert(am[j as int] == a@[j as int]@);
                            assert(self@->Array_0 == am);
                            assert(decreases_to!(self@ => self@->Array_0));
                            assert(decreases_to!(am => am[j as int]));
                            assert(decreases_to!(self@ => a@[j as int]@));
                        }
                        match a[j].select_from(sel, pos) {
                            Some(Some(x)) => {
                                let ghost before = models(out@);
                                out.push(x);
                                assert(models(out@) =~= before.push(x@));
                            },
                            Some(None) => {},
                            None => {
                                proof {
                                    lemma_select_each_none(am, s, j + 1);
                                }
                                return None;
                            },
                        }
                        j = j + 1;
                    }
                    assert(am.take(j as int) =~= am);
                    Some(Some(PqlValue::Array(out)))
                }
            },
            _ => Some(Some(self.copy())),
        }
    }
}


/// A value model is valid: every object in it has pairwise distinct keys,
/// as objects of the library always have.
pub open spec fn value_wf(v: ValueModel) -> bool
    decreases v,
{
    match v {
        ValueModel::Array(a) => all_wf(a),
        ValueModel::Object(m) => keys_distinct(m) && entries_wf(m),
        _ => true,
    }
}

/// Every value of a sequence is valid.
pub open spec fn all_wf(a: Seq<ValueModel>) -> bool
    decreases a,
{
    if a.len() == 0 {
        true
    } else {
        all_wf(a.drop_last()) && value_wf(a.last())
    }
}

/// Every value of the entries of an object is valid.
pub open spec fn entries_wf(m: Seq<(Seq<char>, ValueModel)>) -> bool
    decreases m,
{
    if m.len() == 0 {
        true
    } else {
        entries_wf(m.drop_last()) && value_wf(m.last().1)
    }
}

fn check_all_valid(a: &Vec<PqlValue>)
    ensures
        all_wf(models(a@)),
    decreases a, 0nat,
{
    let ghost m = models(a@);
    let mut i: usize = 0;
    assert(m.take(0) =~= Seq::<ValueModel>::empty());
    while i < a.len()
        invariant
            i <= a@.len(),
            m == models(a@),
            all_wf(m.take(i as int)),
        decreases a@.len() - i,
    {
        a[i].check_valid();
        assert(m.take(i + 1).drop_last() =~= m.take(i as int));
        assert(m.take(i + 1).last() == a@[i as int]@);
        i = i + 1;
    }
    assert(m.take(i as int) =~= m);
}

fn check_entries_valid(e: &Vec<(String, PqlValue)>)
    ensures
        entries_wf(entries_model(e@)),
    decreases e, 0nat,
{
    let ghost m = entries_model(e@);
    let mut i: usize = 0;
    assert(m.take(0) =~= Seq::<(Seq<char>, ValueModel)>::empty());
    while i < e.len()
        invariant
            i <= e@.len(),
            m == entries_model(e@),
            entries_wf(m.take(i as int)),
        decreases e@.len() - i,
    {
        e[i].1.check_valid();
        assert(m.take(i + 1).drop_last() =~= m.take(i as int));
        assert(m.take(i + 1).last().1 == e@[i as int].1@);
        i = i + 1;
    }
    assert(m.take(i as int) =~= m);
}

impl PqlValue {
    /// Every value is valid (see `value_wf`): the objects in it have
    /// distinct keys at every depth, as the invariant of [`PqlObject`]
    /// keeps them. The call walks the value and changes nothing.
    pub fn check_valid(&self)
        ensures
            value_wf(self@),
        decreases self, 1nat,
    {
        broadcast use lemma_view_unfold;

        match self {
            PqlValue::Array(a) => check_all_valid(a),
            PqlValue::Object(o) => {
                proof {
                    use_type_invariant(o);
                }
                check_entries_valid(&o.entries);
            },
            _ => {},
        }
    }
}

/// Each value of a valid sequence is valid.
pub proof fn lemma_all_wf(a: Seq<ValueModel>, i: int)
    requires
        all_wf(a),
        0 <= i < a.len(),
    ensures
        value_wf(a[i]),
    decreases a.len(),
{
    if i < a.len() - 1 {
        lemma_all_wf(a.drop_last(), i);
    }
}

/// Each value of valid entries is valid.
pub proof fn lemma_entries_wf(m: Seq<(Seq<char>, ValueModel)>, i: int)
    requires
        entries_wf(m),
        0 <= i < m.len(),
    ensures
        value_wf(m[i].1),
    decreases m.len(),
{
    if i < m.len() - 1 {
        lemma_entries_wf(m.drop_last(), i);
    }
}

} // verus!
