//! Filtering a value by a `WHERE` condition: `restrict` keeps, along a path,
//! what satisfies the condition, and drops what does not.
use vstd::prelude::*;

use crate::regex_support::{regex_is_match, regex_matches, regex_valid};
use crate::sql::expr::{Expr, WhereCond};
use crate::sql::selector::{node_text, NodeModel, Selector};
use crate::text::{chars_of, string_from_chars};
use crate::value::{
    all_wf, entries_wf, has_key, key_index, keys_distinct, lemma_all_wf, lemma_entries_wf,
    lemma_insert_keeps_distinct, lemma_key_index_unique, lemma_view_unfold, models, obj_insert,
    value_wf, PqlFloat, PqlValue, ValueModel,
};

verus! {

/// The characters that a regular expression treats specially.
pub open spec fn is_regex_meta(c: char) -> bool {
    c == '\\' || c == '.' || c == '+' || c == '*' || c == '?' || c == '(' || c == ')' || c == '|'
        || c == '[' || c == ']' || c == '{' || c == '}' || c == '^' || c == '$'
}

/// The regular expression for one character of a `LIKE` pattern: `%`
/// stands for any run of characters, `_` for any one character, and every
/// other character for itself (escaped where the regular expression would
/// treat it specially).
pub open spec fn like_char(c: char) -> Seq<char> {
    if c == '%' {
        seq!['.', '*']
    } else if c == '_' {
        seq!['.']
    } else if is_regex_meta(c) {
        seq!['\\', c]
    } else {
        seq![c]
    }
}

/// The regular expressions of the characters of a `LIKE` pattern, in order.
pub open spec fn like_body(p: Seq<char>) -> Seq<char>
    decreases p.len(),
{
    if p.len() == 0 {
        Seq::empty()
    } else {
        like_body(p.drop_last()) + like_char(p.last())
    }
}

/// The regular expression of a `LIKE` pattern: the whole text must match
/// (`^`, `$`), and `.` matches any character, line breaks included (`(?s)`).
pub open spec fn like_pattern(p: Seq<char>) -> Seq<char> {
    seq!['(', '?', 's', ')', '^'] + like_body(p) + seq!['$']
}

fn push_like_char(out: &mut Vec<char>, c: char)
    ensures
        final(out)@ == old(out)@ + like_char(c),
{
    if c == '%' {
        out.push('.');
        out.push('*');
    } else if c == '_' {
        out.push('.');
    } else {
        if c == '\\' || c == '.' || c == '+' || c == '*' || c == '?' || c == '(' || c == ')' || c
            == '|' || c == '[' || c == ']' || c == '{' || c == '}' || c == '^' || c == '$' {
            out.push('\\');
        }
        out.push(c);
    }
    assert(out@ =~= old(out)@ + like_char(c));
}

/// The regular expression that the `LIKE` pattern `pattern` stands for (see
/// `like_pattern`), as text.
pub fn re_from_str(pattern: &str) -> (r: String)
    ensures
        r@ == like_pattern(pattern@),
{
    let p = chars_of(pattern);
    let mut out: Vec<char> = Vec::new();
    out.push('(');
    out.push('?');
    out.push('s');
    out.push(')');
    out.push('^');
    let ghost prefix = out@;
    let mut k: usize = 0;
    assert(p@.take(0) =~= Seq::<char>::empty());
    assert(out@ =~= prefix + like_body(p@.take(0)));
    while k < p.len()
        invariant
            k <= p@.len(),
            out@ == prefix + like_body(p@.take(k as int)),
        decreases p@.len() - k,
    {
        assert(p@.take(k + 1).drop_last() =~= p@.take(k as int));
        assert(p@.take(k + 1).last() == p@[k as int]);
        push_like_char(&mut out, p[k]);
        assert(out@ =~= prefix + like_body(p@.take(k + 1)));
        k = k + 1;
    }
    assert(p@.take(k as int) =~= p@);
    out.push('$');
    assert(out@ =~= like_pattern(pattern@));
    string_from_chars(out.as_slice())
}

/// Whether `text` is `LIKE` the pattern: `None` when the regular expression
/// of the pattern does not compile.
pub fn like_match(pattern: &str, text: &str) -> (r: Option<bool>)
    ensures
        r is Some <==> regex_valid(like_pattern(pattern@)),
        r matches Some(b) ==> b == regex_matches(like_pattern(pattern@), text@),
{
    let re = re_from_str(pattern);
    regex_is_match(re.as_str(), text)
}

/// Why a value cannot be filtered.
#[derive(Debug, Clone, Copy, PartialEq, Eq)]
pub enum FilterError {
    /// `LIKE` was applied to something other than a string.
    NotAString,
    /// The regular expression of a `LIKE` pattern does not compile.
    BadPattern,
    /// The condition is on something other than a path.
    NotAPath,
    /// The path of the condition runs through a circle of aliases.
    CyclicAlias,
}

/// The content of a condition that a filter tests.
pub ghost enum CondModel {
    Eq(ValueModel),
    Like(Seq<char>),
}

/// What `cond` tests: equality with its value, or a `LIKE` pattern.
pub open spec fn cond_model(cond: WhereCond) -> CondModel {
    match cond {
        WhereCond::Eq { right, .. } => CondModel::Eq(right@),
        WhereCond::Like { right, .. } => CondModel::Like(right@),
    }
}

/// What an optional condition tests.
pub open spec fn cond_opt(cond: Option<WhereCond>) -> Option<CondModel> {
    match cond {
        Some(c) => Some(cond_model(c)),
        None => None,
    }
}

/// Whether the scalar `v` passes the test `c` (with no condition, every
/// scalar passes; a float passes any `LIKE` pattern): `Err` where it cannot
/// be tested.
pub open spec fn test_scalar(v: ValueModel, c: Option<CondModel>) -> Result<bool, FilterError> {
    match c {
        None => Ok(true),
        Some(CondModel::Eq(right)) => Ok(v == right),
        Some(CondModel::Like(p)) => match v {
            ValueModel::Str(s) => if regex_valid(like_pattern(p)) {
                Ok(regex_matches(like_pattern(p), s))
            } else {
                Err(FilterError::BadPattern)
            },
            ValueModel::Float(_) => Ok(true),
            _ => Err(FilterError::NotAString),
        },
    }
}

/// `v` restricted along `path` to what passes `c`:
/// - an array keeps the restrictions of its elements that remain, and
///   disappears when none does;
/// - an object is entered by the key of the first node of the path; it
///   remains, with that entry replaced by its restriction, when the entry
///   exists and its restriction remains; an object at the end of the path
///   remains as it is;
/// - `true` remains, `false` and null do not;
/// - any other value remains when it passes the test.
/// `Err` where the value cannot be filtered (the first such place, in order).
pub open spec fn restrict_spec(v: ValueModel, path: Seq<NodeModel>, c: Option<CondModel>) -> Result<
    Option<ValueModel>,
    FilterError,
>
    decreases v,
{
    match v {
        ValueModel::Array(a) => match restrict_each(a, path, c) {
            Ok(r) => Ok(
                if r.len() == 0 {
                    None
                } else {
                    Some(ValueModel::Array(r))
                },
            ),
            Err(e) => Err(e),
        },
        ValueModel::Object(m) => {
            if path.len() == 0 {
                Ok(Some(v))
            } else {
                let k = node_text(path[0]);
                if has_key(m, k) {
                    let i = key_index(m, k);
                    if 0 <= i < m.len() {
                        match restrict_spec(m[i].1, path.drop_first(), c) {
                            Ok(Some(x)) => Ok(Some(ValueModel::Object(obj_insert(m, k, x)))),
                            Ok(None) => Ok(None),
                            Err(e) => Err(e),
                        }
                    } else {
                        Ok(None)
                    }
                } else {
                    Ok(None)
                }
            }
        },
        ValueModel::Boolean(b) => Ok(
            if b {
                Some(v)
            } else {
                None
            },
        ),
        ValueModel::Null => Ok(None),
        _ => match test_scalar(v, c) {
            Ok(true) => Ok(Some(v)),
            Ok(false) => Ok(None),
            Err(e) => Err(e),
        },
    }
}

/// The restrictions of the elements of `a` that remain, in order; `Err` at
/// the first element that cannot be filtered.
pub open spec fn restrict_each(a: Seq<ValueModel>, path: Seq<NodeModel>, c: Option<CondModel>) -> Result<
    Seq<ValueModel>,
    FilterError,
>
    decreases a,
{
    if a.len() == 0 {
        Ok(Seq::empty())
    } else {
        match restrict_each(a.drop_last(), path, c) {
            Err(e) => Err(e),
            Ok(r) => match restrict_spec(a.last(), path, c) {
                Ok(Some(x)) => Ok(r.push(x)),
                Ok(None) => Ok(r),
                Err(e) => Err(e),
            },
        }
    }
}

/// The model of an optional value.
pub open spec fn opt_model(v: Option<PqlValue>) -> Option<ValueModel> {
    match v {
        Some(x) => Some(x@),
        None => None,
    }
}


/// Whether two decimals are written alike.
pub fn float_eq(a: &PqlFloat, b: &PqlFloat) -> (r: bool)
    ensures
        r == (a@ == b@),
{
    if a.negative != b.negative || a.exponent != b.exponent || a.digits.len() != b.digits.len() {
        return false;
    }
    let mut i: usize = 0;
    while i < a.digits.len()
        invariant
            i <= a.digits@.len(),
            a.digits@.len() == b.digits@.len(),
            forall|j: int| 0 <= j < i ==> a.digits@[j] == b.digits@[j],
        decreases a.digits@.len() - i,
    {
        if a.digits[i] != b.digits[i] {
            return false;
        }
        i = i + 1;
    }
    assert(a.digits@ =~= b.digits@);
    true
}

/// Whether the scalar `a` (neither an array nor an object) equals `b`.
pub fn scalar_eq(a: &PqlValue, b: &PqlValue) -> (r: bool)
    requires
        !(a is Array),
        !(a is Object),
    ensures
        r == (a@ == b@),
{
    broadcast use lemma_view_unfold;

    match (a, b) {
        (PqlValue::Null, PqlValue::Null) => true,
        (PqlValue::Str(x), PqlValue::Str(y)) => *x == *y,
        (PqlValue::Boolean(x), PqlValue::Boolean(y)) => *x == *y,
        (PqlValue::Int(x), PqlValue::Int(y)) => *x == *y,
        (PqlValue::Float(x), PqlValue::Float(y)) => float_eq(x, y),
        (PqlValue::DateTime(x), PqlValue::DateTime(y)) => *x == *y,
        _ => false,
    }
}

fn test_scalar_exec(v: &PqlValue, cond: &Option<WhereCond>) -> (r: Result<bool, FilterError>)
    requires
        !(v is Array),
        !(v is Object),
    ensures
        r == test_scalar(v@, cond_opt(*cond)),
{
    broadcast use lemma_view_unfold;

    match cond {
        None => Ok(true),
        Some(WhereCond::Eq { right, .. }) => Ok(scalar_eq(v, right)),
        Some(WhereCond::Like { right, .. }) => match v {
            PqlValue::Str(s) => match like_match(right.as_str(), s.as_str()) {
                Some(b) => Ok(b),
                None => Err(FilterError::BadPattern),
            },
            PqlValue::Float(_) => Ok(true),
            _ => Err(FilterError::NotAString),
        },
    }
}

/// An error met at some element stands for the whole sequence.
proof fn lemma_restrict_each_err(
    a: Seq<ValueModel>,
    path: Seq<NodeModel>,
    c: Option<CondModel>,
    k: int,
    e: FilterError,
)
    requires
        0 <= k <= a.len(),
        restrict_each(a.take(k), path, c) == Err::<Seq<ValueModel>, FilterError>(e),
    ensures
        restrict_each(a, path, c) == Err::<Seq<ValueModel>, FilterError>(e),
    decreases a.len(),
{
    if k < a.len() {
        assert(a.drop_last().take(k) =~= a.take(k));
        lemma_restrict_each_err(a.drop_last(), path, c, k, e);
    } else {
        assert(a.take(k) =~= a);
    }
}

fn restrict_at(v: PqlValue, path: &Selector, pos: usize, cond: &Option<WhereCond>) -> (r: Option<
    PqlValue,
>)
    requires
        pos <= path@.len(),
        restrict_spec(v@, path@.skip(pos as int), cond_opt(*cond)) is Ok,
    ensures
        restrict_spec(v@, path@.skip(pos as int), cond_opt(*cond)) == Ok::<
            Option<ValueModel>,
            FilterError,
        >(opt_model(r)),
    decreases v@,
{
    broadcast use lemma_view_unfold;

    let ghost p = path@.skip(pos as int);
    let ghost c = cond_opt(*cond);
    let ghost vm = v@;
    if let PqlValue::Array(a) = &v {
        let ghost am = models(a@);
        assert(vm == ValueModel::Array(am));
        let mut out: Vec<PqlValue> = Vec::new();
        let mut j: usize = 0;
        assert(am.take(0) =~= Seq::<ValueModel>::empty());
        assert(models(out@) =~= Seq::<ValueModel>::empty());
        while j < a.len()
            invariant
                j <= a@.len(),
                am == models(a@),
                vm == v@,
                vm == ValueModel::Array(am),
                pos <= path@.len(),
                p == path@.skip(pos as int),
                c == cond_opt(*cond),
                restrict_each(am, p, c) is Ok,
                restrict_each(am.take(j as int), p, c) == Ok::<Seq<ValueModel>, FilterError>(
                    models(out@),
                ),
            decreases a@.len() - j,
        {
            let x = a[j].copy();
            proof {
                assert(am.take(j + 1).drop_last() =~= am.take(j as int));
                assert(am[j as int] == a@[j as int]@);
                assert(vm->Array_0 == am);
                assert(decreases_to!(vm => vm->Array_0));
                assert(decreases_to!(am => am[j as int]));
                assert(decreases_to!(vm => x@));
                if restrict_spec(x@, p, c) is Err {
                    lemma_restrict_each_err(am, p, c, j + 1, restrict_spec(x@, p, c)->Err_0);
                }
            }
            match restrict_at(x, path, pos, cond) {
                Some(y) => {
                    let ghost before = models(out@);
                    out.push(y);
                    assert(models(out@) =~= before.push(y@));
                },
                None => {},
            }
            j = j + 1;
        }
        assert(am.take(j as int) =~= am);
        return if out.len() == 0 {
            None
        } else {
            Some(PqlValue::Array(out))
        };
    }
    match v {
        PqlValue::Array(_) => None,
        PqlValue::Object(o) => {
            let mut o = o;
            proof {
                use_type_invariant(&o);
            }
            let ghost m = o@;
            assert(vm == ValueModel::Object(m));
            if pos == path.data.len() {
                return Some(PqlValue::Object(o));
            }
            assert(p.len() > 0);
            assert(pos < path@.len());
            assert(pos < path.data.len());
            assert(p[0] == path@[pos as int]);
            assert(p.drop_first() =~= path@.skip(pos + 1));
            let key = path.data[pos].to_string();
            match o.index_of(&key) {
                Some(i) => {
                    let (_, child) = o.get_index(i);
                    let x = child.copy();
                    proof {
                        assert(vm->Object_0 == m);
                        assert(decreases_to!(vm => vm->Object_0));
                        assert(decreases_to!(m => m[i as int]));
                        assert(decreases_to!(m[i as int] => m[i as int].1));
                        assert(decreases_to!(vm => x@));
                    }
                    match restrict_at(x, path, pos + 1, cond) {
                        Some(y) => {
                            o.insert(key, y);
                            Some(PqlValue::Object(o))
                        },
                        None => None,
                    }
                },
                None => None,
            }
        },
        PqlValue::Boolean(b) => {
            if b {
                Some(PqlValue::Boolean(true))
            } else {
                None
            }
        },
        PqlValue::Null => None,
        _ => {
            match test_scalar_exec(&v, cond) {
                Ok(true) => Some(v),
                _ => None,
            }
        },
    }
}


fn restrict_status(v: &PqlValue, path: &Selector, pos: usize, cond: &Option<WhereCond>) -> (r:
    Result<(), FilterError>)
    requires
        pos <= path@.len(),
    ensures
        match r {
            Ok(_) => restrict_spec(v@, path@.skip(pos as int), cond_opt(*cond)) is Ok,
            Err(e) => restrict_spec(v@, path@.skip(pos as int), cond_opt(*cond)) == Err::<
                Option<ValueModel>,
                FilterError,
            >(e),
        },
    decreases v@,
{
    broadcast use lemma_view_unfold;

    let ghost p = path@.skip(pos as int);
    let ghost c = cond_opt(*cond);
    match v {
        PqlValue::Array(a) => {
            let ghost am = models(a@);
            assert(v@ == ValueModel::Array(am));
            let mut j: usize = 0;
            assert(am.take(0) =~= Seq::<ValueModel>::empty());
            while j < a.len()
                invariant
                    j <= a@.len(),
                    am == models(a@),
                    v@ == ValueModel::Array(am),
                    pos <= path@.len(),
                    p == path@.skip(pos as int),
                    c == cond_opt(*cond),
                    restrict_each(am.take(j as int), p, c) is Ok,
                decreases a@.len() - j,
            {
                proof {
                    assert(am.take(j + 1).drop_last() =~= am.take(j as int));
                    assert(am[j as int] == a@[j as int]@);
                    assert(v@->Array_0 == am);
                    assert(decreases_to!(v@ => v@->Array_0));
                    assert(decreases_to!(am => am[j as int]));
                    assert(decreases_to!(v@ => a@[j as int]@));
                }
                match restrict_status(&a[j], path, pos, cond) {
                    Ok(_) => {},
                    Err(e) => {
                        proof {
                            lemma_restrict_each_err(am, p, c, j + 1, e);
                        }
                        return Err(e);
                    },
                }
                j = j + 1;
            }
            assert(am.take(j as int) =~= am);
            Ok(())
        },
        PqlValue::Object(o) => {
            proof {
                use_type_invariant(o);
            }
            if pos == path.data.len() {
                return Ok(());
            }
            let ghost m = o@;
            assert(p[0] == path@[pos as int]);
            assert(p.drop_first() =~= path@.skip(pos + 1));
            let key = path.data[pos].to_string();
            match o.index_of(&key) {
                Some(i) => {
                    let (_, child) = o.get_index(i);
                    proof {
                        assert(v@->Object_0 == m);
                        assert(decreases_to!(v@ => v@->Object_0));
                        assert(decreases_to!(m => m[i as int]));
                        assert(decreases_to!(m[i as int] => m[i as int].1));
                        assert(decreases_to!(v@ => child@));
                    }
                    restrict_status(child, path, pos + 1, cond)
                },
                None => Ok(()),
            }
        },
        PqlValue::Boolean(_) => Ok(()),
        PqlValue::Null => Ok(()),
        _ => match test_scalar_exec(v, cond) {
            Ok(_) => Ok(()),
            Err(e) => Err(e),
        },
    }
}

/// `value` restricted along `path` to what passes `cond` (see
/// `restrict_spec`); nothing when there is no value.
pub fn restrict(value: Option<PqlValue>, path: &Selector, cond: &Option<WhereCond>) -> (r: Option<
    PqlValue,
>)
    requires
        value matches Some(v) ==> restrict_spec(v@, path@, cond_opt(*cond)) is Ok,
    ensures
        match value {
            Some(v) => restrict_spec(v@, path@, cond_opt(*cond)) == Ok::<
                Option<ValueModel>,
                FilterError,
            >(opt_model(r)),
            None => r is None,
        },
{
    assert(path@.skip(0) =~= path@);
    match value {
        Some(v) => restrict_at(v, path, 0, cond),
        None => None,
    }
}

/// The model of the outcome of a restriction.
pub open spec fn restricted_model(r: Result<Option<PqlValue>, FilterError>) -> Result<
    Option<ValueModel>,
    FilterError,
> {
    match r {
        Ok(x) => Ok(opt_model(x)),
        Err(e) => Err(e),
    }
}

/// `restrict`, which reports instead of failing where the value cannot be
/// filtered.
pub fn try_restrict(value: Option<PqlValue>, path: &Selector, cond: &Option<WhereCond>) -> (r:
    Result<Option<PqlValue>, FilterError>)
    ensures
        match value {
            Some(v) => restricted_model(r) == restrict_spec(v@, path@, cond_opt(*cond)),
            None => r == Ok::<Option<PqlValue>, FilterError>(None),
        },
{
    assert(path@.skip(0) =~= path@);
    match &value {
        Some(v) => match restrict_status(v, path, 0, cond) {
            Err(e) => {
                return Err(e);
            },
            Ok(_) => {},
        },
        None => {},
    }
    Ok(restrict(value, path, cond))
}


/// A plain scalar: a string, a number or a timestamp (booleans and null are
/// kept or dropped whatever the condition).
pub open spec fn plain_scalar(v: ValueModel) -> bool {
    v is Str || v is Int || v is Float || v is DateTime
}

/// The test "equals `r`".
pub open spec fn equal_to(r: ValueModel) -> spec_fn(ValueModel) -> bool {
    |x: ValueModel| x == r
}

/// An equality condition keeps a plain scalar exactly when it equals the
/// condition's value, along any path; so filtering a list of plain scalars
/// by `= r` keeps exactly the elements equal to `r`, in order, and no
/// element different from `r`.
pub proof fn lemma_eq_keeps_equal(a: Seq<ValueModel>, path: Seq<NodeModel>, r: ValueModel)
    requires
        forall|i: int| 0 <= i < a.len() ==> plain_scalar(#[trigger] a[i]),
    ensures
        restrict_each(a, path, Some(CondModel::Eq(r))) == Ok::<Seq<ValueModel>, FilterError>(
            a.filter(equal_to(r)),
        ),
        forall|i: int|
            0 <= i < a.len() ==> restrict_spec(#[trigger] a[i], path, Some(CondModel::Eq(r)))
                == Ok::<Option<ValueModel>, FilterError>(
                if a[i] == r {
                    Some(a[i])
                } else {
                    None
                },
            ),
    decreases a.len(),
{
    reveal(Seq::filter);
    if a.len() > 0 {
        let p = a.drop_last();
        assert forall|i: int| 0 <= i < p.len() implies plain_scalar(#[trigger] p[i]) by {
            assert(p[i] == a[i]);
        }
        lemma_eq_keeps_equal(p, path, r);
        assert(plain_scalar(a[a.len() - 1]));
        let f = equal_to(r);
        assert(a.filter(f) == if f(a.last()) {
            p.filter(f).push(a.last())
        } else {
            p.filter(f)
        });
        assert forall|i: int| 0 <= i < a.len() implies restrict_spec(
            #[trigger] a[i],
            path,
            Some(CondModel::Eq(r)),
        ) == Ok::<Option<ValueModel>, FilterError>(
            if a[i] == r {
                Some(a[i])
            } else {
                None
            },
        ) by {
            assert(plain_scalar(a[i]));
        }
        let c = Some(CondModel::Eq(r));
        let last = a[a.len() - 1];
        assert(last == a.last());
        assert(restrict_spec(last, path, c) == Ok::<Option<ValueModel>, FilterError>(
            if last == r {
                Some(last)
            } else {
                None
            },
        ));
    } else {
        assert(a.filter(equal_to(r)) =~= a);
        assert(a =~= Seq::<ValueModel>::empty());
    }
}

/// Filtering is idempotent: what a filter keeps of a valid value, filtered
/// again along the same path by the same condition, is kept entirely.
pub proof fn lemma_restrict_idempotent(v: ValueModel, path: Seq<NodeModel>, c: Option<CondModel>)
    requires
        value_wf(v),
        restrict_spec(v, path, c) is Ok,
        restrict_spec(v, path, c)->Ok_0 is Some,
    ensures
        restrict_spec(restrict_spec(v, path, c)->Ok_0->Some_0, path, c) == Ok::<
            Option<ValueModel>,
            FilterError,
        >(restrict_spec(v, path, c)->Ok_0),
    decreases v,
{
    let x = restrict_spec(v, path, c)->Ok_0->Some_0;
    match v {
        ValueModel::Array(a) => {
            lemma_restrict_each_idempotent(a, path, c);
        },
        ValueModel::Object(m) => if path.len() > 0 {
            let k = node_text(path[0]);
            let i = key_index(m, k);
            lemma_entries_wf(m, i);
            let y = restrict_spec(m[i].1, path.drop_first(), c)->Ok_0->Some_0;
            assert(decreases_to!(v => m));
            assert(decreases_to!(m => m[i]));
            lemma_restrict_idempotent(m[i].1, path.drop_first(), c);
            let m2 = obj_insert(m, k, y);
            lemma_insert_keeps_distinct(m, k, y);
            assert(m2 == m.update(i, (k, y)));
            assert(m2[i] == (k, y));
            lemma_key_index_unique(m2, k, i);
            assert(obj_insert(m2, k, y) =~= m2);
        },
        _ => {},
    }
}

/// Filtering the elements that a filter kept, again, keeps all of them.
pub proof fn lemma_restrict_each_idempotent(a: Seq<ValueModel>, path: Seq<NodeModel>, c: Option<
    CondModel,
>)
    requires
        all_wf(a),
        restrict_each(a, path, c) is Ok,
    ensures
        restrict_each(restrict_each(a, path, c)->Ok_0, path, c) == restrict_each(a, path, c),
    decreases a,
{
    if a.len() > 0 {
        let p = a.drop_last();
        let r = restrict_each(p, path, c)->Ok_0;
        lemma_restrict_each_idempotent(p, path, c);
        lemma_all_wf(a, a.len() - 1);
        match restrict_spec(a.last(), path, c) {
            Ok(Some(x)) => {
                lemma_restrict_idempotent(a.last(), path, c);
                assert(r.push(x).drop_last() =~= r);
            },
            _ => {},
        }
    }
}

} // verus!
