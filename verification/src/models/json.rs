//! JSON values, with lookups by key and by path and the keeping of chosen
//! keys.
use vstd::prelude::*;

use crate::text::str_eq;
use crate::value::{has_key, FloatModel, PqlFloat};

verus! {

/// A JSON value. Numbers are decimals; an object lists its entries, and a
/// key is looked up at its first entry.
#[derive(Debug, PartialEq)]
pub enum JsonValue {
    Null,
    Str(String),
    Boolean(bool),
    Num(PqlFloat),
    Array(Vec<JsonValue>),
    Object(Vec<(String, JsonValue)>),
}

/// The mathematical content of a [`JsonValue`].
pub ghost enum JsonModel {
    Null,
    Str(Seq<char>),
    Boolean(bool),
    Num(FloatModel),
    Array(Seq<JsonModel>),
    Object(Seq<(Seq<char>, JsonModel)>),
}

/// The entries of a JSON object model.
pub type JsonEntries = Seq<(Seq<char>, JsonModel)>;

pub closed spec fn json_model(v: JsonValue) -> JsonModel
    decreases v,
{
    match v {
        JsonValue::Null => JsonModel::Null,
        JsonValue::Str(s) => JsonModel::Str(s@),
        JsonValue::Boolean(b) => JsonModel::Boolean(b),
        JsonValue::Num(f) => JsonModel::Num(f@),
        JsonValue::Array(a) => JsonModel::Array(
            Seq::new(
                a@.len(),
                |i: int|
                    if 0 <= i < a@.len() {
                        json_model(a@[i])
                    } else {
                        JsonModel::Null
                    },
            ),
        ),
        JsonValue::Object(m) => JsonModel::Object(
            Seq::new(
                m@.len(),
                |i: int|
                    if 0 <= i < m@.len() {
                        (m@[i].0@, json_model(m@[i].1))
                    } else {
                        (Seq::empty(), JsonModel::Null)
                    },
            ),
        ),
    }
}

impl View for JsonValue {
    type V = JsonModel;

    open spec fn view(&self) -> JsonModel {
        json_model(*self)
    }
}

/// The models of a sequence of JSON values.
pub open spec fn json_models(s: Seq<JsonValue>) -> Seq<JsonModel> {
    s.map_values(|x: JsonValue| x@)
}

/// The model of a sequence of object entries.
pub open spec fn json_entries(e: Seq<(String, JsonValue)>) -> JsonEntries {
    e.map_values(|p: (String, JsonValue)| (p.0@, p.1@))
}

/// How the model of a JSON value is made from the models of its parts.
pub broadcast proof fn lemma_json_unfold(v: JsonValue)
    ensures
        #[trigger] v@ == match v {
            JsonValue::Null => JsonModel::Null,
            JsonValue::Str(s) => JsonModel::Str(s@),
            JsonValue::Boolean(b) => JsonModel::Boolean(b),
            JsonValue::Num(f) => JsonModel::Num(f@),
            JsonValue::Array(a) => JsonModel::Array(json_models(a@)),
            JsonValue::Object(m) => JsonModel::Object(json_entries(m@)),
        },
{
    match v {
        JsonValue::Array(a) => {
            match json_model(v) {
                JsonModel::Array(s) => {
                    assert(s =~= json_models(a@));
                },
                _ => {},
            }
        },
        JsonValue::Object(m) => {
            match json_model(v) {
                JsonModel::Object(s) => {
                    assert(s =~= json_entries(m@));
                },
                _ => {},
            }
        },
        _ => {},
    }
}

/// `i` is the first position of key `k` in `m`.
pub open spec fn is_first(m: JsonEntries, k: Seq<char>, i: int) -> bool {
    &&& 0 <= i < m.len()
    &&& m[i].0 == k
    &&& forall|j: int| 0 <= j < i ==> m[j].0 != k
}

/// The value at the first entry with key `k`, if there is one.
pub open spec fn first_get(m: JsonEntries, k: Seq<char>) -> Option<JsonModel> {
    if has_key(m, k) {
        Some(m[choose|i: int| is_first(m, k, i)].1)
    } else {
        None
    }
}

/// The value under key `k` of an object; other values have no keys.
pub open spec fn json_get(v: JsonModel, k: Seq<char>) -> Option<JsonModel> {
    match v {
        JsonModel::Object(m) => first_get(m, k),
        _ => None,
    }
}

/// The value reached from `v` by the keys of `p`, one after another.
pub open spec fn json_path(v: JsonModel, p: Seq<Seq<char>>) -> Option<JsonModel>
    decreases p.len(),
{
    if p.len() == 0 {
        Some(v)
    } else {
        match json_get(v, p[0]) {
            Some(x) => json_path(x, p.drop_first()),
            None => None,
        }
    }
}

/// The entries of `m` under the keys of `p` that it has, each key once, in
/// the order of their first occurrence in `p`.
pub open spec fn kept_keys(m: JsonEntries, p: Seq<Seq<char>>) -> JsonEntries
    decreases p.len(),
{
    if p.len() == 0 {
        Seq::empty()
    } else {
        let prev = kept_keys(m, p.drop_last());
        match first_get(m, p.last()) {
            Some(v) => if has_key(prev, p.last()) {
                prev
            } else {
                prev.push((p.last(), v))
            },
            None => prev,
        }
    }
}

/// The objects among `a`, each reduced to the keys of `p`; other values
/// are dropped.
pub open spec fn kept_objects(a: Seq<JsonModel>, p: Seq<Seq<char>>) -> Seq<JsonModel>
    decreases a.len(),
{
    if a.len() == 0 {
        Seq::empty()
    } else {
        let prev = kept_objects(a.drop_last(), p);
        match a.last() {
            JsonModel::Object(m) => prev.push(JsonModel::Object(kept_keys(m, p))),
            _ => prev,
        }
    }
}

/// The model of an optional JSON value.
pub open spec fn opt_json(r: Option<JsonValue>) -> Option<JsonModel> {
    match r {
        Some(v) => Some(v@),
        None => None,
    }
}

/// The texts of a list of keys.
pub open spec fn key_texts(p: Seq<&str>) -> Seq<Seq<char>> {
    p.map_values(|k: &str| k@)
}

proof fn lemma_first_unique(m: JsonEntries, k: Seq<char>, i: int)
    requires
        is_first(m, k, i),
    ensures
        has_key(m, k),
        first_get(m, k) == Some(m[i].1),
{
    let c = choose|c: int| is_first(m, k, c);
    assert(is_first(m, k, c));
    if c < i {
        assert(m[c].0 != k);
    } else if i < c {
        assert(m[i].0 != k);
    }
}

/// The position of the first entry with key `key`, if any.
fn first_index(m: &Vec<(String, JsonValue)>, key: &str) -> (r: Option<usize>)
    ensures
        match r {
            Some(i) => is_first(json_entries(m@), key@, i as int),
            None => !has_key(json_entries(m@), key@),
        },
{
    let ghost e = json_entries(m@);
    let mut i: usize = 0;
    while i < m.len()
        invariant
            i <= m@.len(),
            e == json_entries(m@),
            forall|j: int| 0 <= j < i ==> e[j].0 != key@,
        decreases m@.len() - i,
    {
        assert(e[i as int].0 == m@[i as int].0@);
        if str_eq(m[i].0.as_str(), key) {
            return Some(i);
        }
        i = i + 1;
    }
    None
}

/// A copy of a list of JSON values.
fn copy_json_values(a: &Vec<JsonValue>) -> (r: Vec<JsonValue>)
    ensures
        json_models(r@) == json_models(a@),
    decreases a, 0nat,
{
    let mut out: Vec<JsonValue> = Vec::new();
    let mut i: usize = 0;
    while i < a.len()
        invariant
            i <= a@.len(),
            out@.len() == i,
            forall|j: int| 0 <= j < i ==> (#[trigger] out@[j])@ == a@[j]@,
        decreases a@.len() - i,
    {
        out.push(a[i].copy());
        i = i + 1;
    }
    assert(json_models(out@) =~= json_models(a@));
    out
}

/// A copy of the entries of a JSON object.
fn copy_json_entries(m: &Vec<(String, JsonValue)>) -> (r: Vec<(String, JsonValue)>)
    ensures
        json_entries(r@) == json_entries(m@),
    decreases m, 0nat,
{
    let mut out: Vec<(String, JsonValue)> = Vec::new();
    let mut i: usize = 0;
    while i < m.len()
        invariant
            i <= m@.len(),
            out@.len() == i,
            forall|j: int|
                0 <= j < i ==> (#[trigger] out@[j]).0@ == m@[j].0@ && out@[j].1@ == m@[j].1@,
        decreases m@.len() - i,
    {
        let k = m[i].0.clone();
        let v = m[i].1.copy();
        out.push((k, v));
        i = i + 1;
    }
    assert(json_entries(out@) =~= json_entries(m@));
    out
}

impl JsonValue {
    /// A copy of the value.
    pub fn copy(&self) -> (r: JsonValue)
        ensures
            r@ == self@,
        decreases self, 1nat,
    {
        broadcast use lemma_json_unfold;

        match self {
            JsonValue::Null => JsonValue::Null,
            JsonValue::Str(s) => JsonValue::Str(s.clone()),
            JsonValue::Boolean(b) => JsonValue::Boolean(*b),
            JsonValue::Num(f) => JsonValue::Num(f.copy()),
            JsonValue::Array(a) => JsonValue::Array(copy_json_values(a)),
            JsonValue::Object(m) => JsonValue::Object(copy_json_entries(m)),
        }
    }

    /// The value under `key`, if the value is an object with that key (see
    /// `json_get`).
    pub fn get(self, key: &str) -> (r: Option<JsonValue>)
        ensures
            opt_json(r) == json_get(self@, key@),
    {
        broadcast use lemma_json_unfold;

        match self {
            JsonValue::Object(m) => {
                let ghost e = json_entries(m@);
                match first_index(&m, key) {
                    Some(i) => {
                        proof {
                            lemma_first_unique(e, key@, i as int);
                        }
                        assert(e[i as int].1 == m@[i as int].1@);
                        Some(m[i].1.copy())
                    },
                    None => None,
                }
            },
            _ => None,
        }
    }

    /// The value reached by the keys of `path`, one after another (see
    /// `json_path`).
    pub fn get_path(self, path: &[&str]) -> (r: Option<JsonValue>)
        requires
            path@.len() > 0,
        ensures
            opt_json(r) == json_path(self@, key_texts(path@)),
    {
        let ghost p = key_texts(path@);
        let mut cur = self;
        let mut i: usize = 0;
        assert(p.skip(0) =~= p);
        while i < path.len()
            invariant
                i <= path@.len(),
                p == key_texts(path@),
                json_path(self@, p) == json_path(cur@, p.skip(i as int)),
            decreases path@.len() - i,
        {
            let ghost rest = p.skip(i as int);
            assert(rest[0] == path@[i as int]@);
            assert(rest.drop_first() =~= p.skip(i + 1));
            match cur.get(path[i]) {
                Some(x) => {
                    cur = x;
                },
                None => {
                    return None;
                },
            }
            i = i + 1;
        }
        assert(p.skip(i as int) =~= Seq::<Seq<char>>::empty());
        Some(cur)
    }

    /// An object reduced to the keys of `path` that it has; `None` for
    /// other values (see `kept_keys`).
    pub fn filter(self, path: &[&str]) -> (r: Option<JsonValue>)
        ensures
            opt_json(r) == match self@ {
                JsonModel::Object(m) => Some(JsonModel::Object(kept_keys(m, key_texts(path@)))),
                _ => None,
            },
    {
        broadcast use lemma_json_unfold;

        match self {
            JsonValue::Object(m) => {
                let ghost e = json_entries(m@);
                let ghost p = key_texts(path@);
                let mut out: Vec<(String, JsonValue)> = Vec::new();
                let mut i: usize = 0;
                assert(p.take(0) =~= Seq::<Seq<char>>::empty());
                assert(json_entries(out@) =~= Seq::<(Seq<char>, JsonModel)>::empty());
                while i < path.len()
                    invariant
                        i <= path@.len(),
                        p == key_texts(path@),
                        e == json_entries(m@),
                        json_entries(out@) == kept_keys(e, p.take(i as int)),
                    decreases path@.len() - i,
                {
                    let ghost before = json_entries(out@);
                    assert(p.take(i + 1).drop_last() =~= p.take(i as int));
                    assert(p.take(i + 1).last() == path@[i as int]@);
                    let key = path[i];
                    match first_index(&m, key) {
                        Some(j) => {
                            proof {
                                lemma_first_unique(e, key@, j as int);
                            }
                            assert(e[j as int].1 == m@[j as int].1@);
                            match first_index(&out, key) {
                                Some(_) => {},
                                None => {
                                    let v = m[j].1.copy();
                                    out.push((key.to_string(), v));
                                    assert(json_entries(out@) =~= before.push((key@, e[j as int].1)));
                                },
                            }
                        },
                        None => {},
                    }
                    i = i + 1;
                }
                assert(p.take(i as int) =~= p);
                Some(JsonValue::Object(out))
            },
            _ => None,
        }
    }

    /// An array of its objects, each reduced to the keys of `path`; other
    /// elements are dropped. `None` for values that are not arrays (see
    /// `kept_objects`).
    pub fn filter_map(self, path: &[&str]) -> (r: Option<JsonValue>)
        ensures
            opt_json(r) == match self@ {
                JsonModel::Array(a) => Some(JsonModel::Array(kept_objects(a, key_texts(path@)))),
                _ => None,
            },
    {
        broadcast use lemma_json_unfold;

        match self {
            JsonValue::Array(a) => {
                let ghost ma = json_models(a@);
                let ghost p = key_texts(path@);
                let mut out: Vec<JsonValue> = Vec::new();
                let mut i: usize = 0;
                assert(ma.take(0) =~= Seq::<JsonModel>::empty());
                assert(json_models(out@) =~= Seq::<JsonModel>::empty());
                while i < a.len()
                    invariant
                        i <= a@.len(),
                        p == key_texts(path@),
                        ma == json_models(a@),
                        json_models(out@) == kept_objects(ma.take(i as int), p),
                    decreases a@.len() - i,
                {
                    let ghost before = json_models(out@);
                    assert(ma.take(i + 1).drop_last() =~= ma.take(i as int));
                    assert(ma.take(i + 1).last() == a@[i as int]@);
                    match a[i].copy().filter(path) {
                        Some(x) => {
                            out.push(x);
                            assert(json_models(out@) =~= before.push(x@));
                        },
                        None => {},
                    }
                    i = i + 1;
                }
                assert(ma.take(i as int) =~= ma);
                Some(JsonValue::Array(out))
            },
            _ => None,
        }
    }
}

} // verus!
