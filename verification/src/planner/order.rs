//! `ORDER BY` and `LIMIT`: rows sorted stably by the value under a key, and
//! a window of the rows.
use vstd::prelude::*;

use crate::text::chars_of;
use crate::value::{get_spec, lemma_view_unfold, models, FloatModel, PqlFloat, PqlValue, ValueModel};

verus! {

broadcast use lemma_view_unfold;

/// Why rows cannot be ordered or limited.
#[derive(Debug, Clone, Copy, PartialEq, Eq)]
pub enum OrderError {
    /// A sort key is an array or an object, which have no order.
    UnorderableKey,
}

/// The rank of a kind of value among sort keys: null, string, boolean,
/// float, integer, timestamp.
pub open spec fn key_rank(v: ValueModel) -> int {
    match v {
        ValueModel::Null => 0,
        ValueModel::Str(_) => 1,
        ValueModel::Boolean(_) => 2,
        ValueModel::Float(_) => 3,
        ValueModel::Int(_) => 4,
        ValueModel::DateTime(_) => 5,
        ValueModel::Array(_) => 6,
        ValueModel::Object(_) => 7,
    }
}

/// Lexicographic order of strings, character by character.
pub open spec fn str_less(s: Seq<char>, t: Seq<char>) -> bool
    decreases s.len(),
{
    if s.len() == 0 {
        t.len() > 0
    } else if t.len() == 0 {
        false
    } else if s[0] != t[0] {
        (s[0] as u32) < (t[0] as u32)
    } else {
        str_less(s.drop_first(), t.drop_first())
    }
}

/// The sign of a decimal: -1, 0 or 1.
pub open spec fn float_sign(f: FloatModel) -> int {
    if f.digits.len() == 0 {
        0
    } else if f.negative {
        -1
    } else {
        1
    }
}

/// Lexicographic order of digit sequences; a proper prefix comes first.
pub open spec fn digits_less(s: Seq<u8>, t: Seq<u8>) -> bool
    decreases s.len(),
{
    if s.len() == 0 {
        t.len() > 0
    } else if t.len() == 0 {
        false
    } else if s[0] != t[0] {
        s[0] < t[0]
    } else {
        digits_less(s.drop_first(), t.drop_first())
    }
}

/// The place of the leading digit of a decimal: a canonical decimal with
/// leading place `p` lies in `[10^(p-1), 10^p)`.
pub open spec fn lead_place(f: FloatModel) -> int {
    f.digits.len() + f.exponent
}

/// Whether the magnitude of `a` is below that of `b`: by the place of the
/// leading digit, then digit by digit from there.
pub open spec fn magnitude_less(a: FloatModel, b: FloatModel) -> bool {
    if lead_place(a) != lead_place(b) {
        lead_place(a) < lead_place(b)
    } else {
        digits_less(a.digits, b.digits)
    }
}

/// The order of decimal values: by sign, then by magnitude (reversed for
/// negative numbers). For canonical decimals this is the order of the
/// numbers they write.
pub open spec fn float_less(a: FloatModel, b: FloatModel) -> bool {
    if float_sign(a) != float_sign(b) {
        float_sign(a) < float_sign(b)
    } else if float_sign(a) == 0 {
        false
    } else if float_sign(a) > 0 {
        magnitude_less(a, b)
    } else {
        magnitude_less(b, a)
    }
}

/// The strict order of sort keys: by rank, then within a kind by value
/// (`false` before `true`, floats by `float_less`).
pub open spec fn key_less(a: ValueModel, b: ValueModel) -> bool {
    if key_rank(a) != key_rank(b) {
        key_rank(a) < key_rank(b)
    } else {
        match (a, b) {
            (ValueModel::Str(x), ValueModel::Str(y)) => str_less(x, y),
            (ValueModel::Boolean(x), ValueModel::Boolean(y)) => !x && y,
            (ValueModel::Float(x), ValueModel::Float(y)) => float_less(x, y),
            (ValueModel::Int(x), ValueModel::Int(y)) => x < y,
            (ValueModel::DateTime(x), ValueModel::DateTime(y)) => x < y,
            _ => false,
        }
    }
}

/// Whether a value can be a sort key.
pub open spec fn key_check(v: ValueModel) -> Result<(), OrderError> {
    match v {
        ValueModel::Array(_) => Err(OrderError::UnorderableKey),
        ValueModel::Object(_) => Err(OrderError::UnorderableKey),
        _ => Ok(()),
    }
}

/// Whether key `a` goes strictly before key `b` in the direction `asc`.
pub open spec fn comes_before(a: ValueModel, b: ValueModel, asc: bool) -> bool {
    if asc {
        key_less(a, b)
    } else {
        key_less(b, a)
    }
}

/// A row with its sort key.
pub type Keyed = (ValueModel, ValueModel);

/// Where a row with key `k` goes into the sorted `t`: after every row whose
/// key does not come after `k`.
pub open spec fn insert_pos(t: Seq<Keyed>, k: ValueModel, asc: bool) -> int
    decreases t.len(),
{
    if t.len() == 0 {
        0
    } else if comes_before(k, t[0].0, asc) {
        0
    } else {
        1 + insert_pos(t.drop_first(), k, asc)
    }
}

/// `t` with `x` inserted at its place.
pub open spec fn insert_sorted(t: Seq<Keyed>, x: Keyed, asc: bool) -> Seq<Keyed> {
    let p = insert_pos(t, x.0, asc);
    t.take(p).push(x) + t.skip(p)
}

/// The rows sorted by key, stably: rows with equal keys keep their order.
pub open spec fn sort_keyed(s: Seq<Keyed>, asc: bool) -> Seq<Keyed>
    decreases s.len(),
{
    if s.len() == 0 {
        s
    } else {
        insert_sorted(sort_keyed(s.drop_last(), asc), s.last(), asc)
    }
}

/// The rows that have a value under `label`, each with that value as its
/// key; an error at the first key that cannot be a sort key.
pub open spec fn keyed_rows(rows: Seq<ValueModel>, label: Seq<char>) -> Result<Seq<Keyed>, OrderError>
    decreases rows.len(),
{
    if rows.len() == 0 {
        Ok(Seq::empty())
    } else {
        match keyed_rows(rows.drop_last(), label) {
            Err(e) => Err(e),
            Ok(r) => match get_spec(rows.last(), label) {
                None => Ok(r),
                Some(k) => match key_check(k) {
                    Ok(_) => Ok(r.push((k, rows.last()))),
                    Err(e) => Err(e),
                },
            },
        }
    }
}

/// The rows of `ORDER BY label` (ascending when `asc`): those that have a
/// value under `label`, sorted stably by it.
pub open spec fn order_spec(rows: Seq<ValueModel>, label: Seq<char>, asc: bool) -> Result<
    Seq<ValueModel>,
    OrderError,
> {
    match keyed_rows(rows, label) {
        Err(e) => Err(e),
        Ok(k) => Ok(sort_keyed(k, asc).map_values(|p: Keyed| p.1)),
    }
}

/// The smaller of two numbers.
pub open spec fn min_int(a: int, b: int) -> int {
    if a < b {
        a
    } else {
        b
    }
}

/// The rows of `LIMIT limit OFFSET offset`: the rows from position
/// `offset` on, at most `limit` of them; none when `offset` is past the end.
pub open spec fn limit_spec(rows: Seq<ValueModel>, limit: u64, offset: u64) -> Result<
    Seq<ValueModel>,
    OrderError,
> {
    Ok(
        rows.subrange(
            min_int(offset as int, rows.len() as int),
            min_int(offset + limit, rows.len() as int),
        ),
    )
}

/// Whether the string `s` comes before `t` (see `str_less`).
pub fn string_less(s: &str, t: &str) -> (r: bool)
    ensures
        r == str_less(s@, t@),
{
    let a = chars_of(s);
    let b = chars_of(t);
    let mut i: usize = 0;
    assert(a@.skip(0) =~= a@);
    assert(b@.skip(0) =~= b@);
    loop
        invariant
            i <= a@.len(),
            i <= b@.len(),
            str_less(s@, t@) == str_less(a@.skip(i as int), b@.skip(i as int)),
            a@ == s@,
            b@ == t@,
        decreases a@.len() - i,
    {
        if i == a.len() {
            return i < b.len();
        }
        if i == b.len() {
            return false;
        }
        assert(a@.skip(i as int)[0] == a@[i as int]);
        assert(b@.skip(i as int)[0] == b@[i as int]);
        if a[i] != b[i] {
            return (a[i] as u32) < (b[i] as u32);
        }
        assert(a@.skip(i as int).drop_first() =~= a@.skip(i + 1));
        assert(b@.skip(i as int).drop_first() =~= b@.skip(i + 1));
        i = i + 1;
    }
}

/// Whether the digits `s` come before `t` (see `digits_less`).
fn digits_lt(s: &Vec<u8>, t: &Vec<u8>) -> (r: bool)
    ensures
        r == digits_less(s@, t@),
{
    let mut i: usize = 0;
    assert(s@.skip(0) =~= s@);
    assert(t@.skip(0) =~= t@);
    loop
        invariant
            i <= s@.len(),
            i <= t@.len(),
            digits_less(s@, t@) == digits_less(s@.skip(i as int), t@.skip(i as int)),
        decreases s@.len() - i,
    {
        if i == s.len() {
            return i < t.len();
        }
        if i == t.len() {
            return false;
        }
        assert(s@.skip(i as int)[0] == s@[i as int]);
        assert(t@.skip(i as int)[0] == t@[i as int]);
        if s[i] != t[i] {
            return s[i] < t[i];
        }
        assert(s@.skip(i as int).drop_first() =~= s@.skip(i + 1));
        assert(t@.skip(i as int).drop_first() =~= t@.skip(i + 1));
        i = i + 1;
    }
}

fn sign_of(f: &PqlFloat) -> (r: i8)
    ensures
        r == float_sign(f@),
{
    if f.digits.len() == 0 {
        0
    } else if f.negative {
        -1
    } else {
        1
    }
}

fn magnitude_lt(a: &PqlFloat, b: &PqlFloat) -> (r: bool)
    ensures
        r == magnitude_less(a@, b@),
{
    let pa = a.digits.len() as i128 + a.exponent as i128;
    let pb = b.digits.len() as i128 + b.exponent as i128;
    if pa != pb {
        pa < pb
    } else {
        digits_lt(&a.digits, &b.digits)
    }
}

/// Whether the decimal `a` comes before `b` (see `float_less`).
pub fn float_lt(a: &PqlFloat, b: &PqlFloat) -> (r: bool)
    ensures
        r == float_less(a@, b@),
{
    let sa = sign_of(a);
    let sb = sign_of(b);
    if sa != sb {
        sa < sb
    } else if sa == 0 {
        false
    } else if sa > 0 {
        magnitude_lt(a, b)
    } else {
        magnitude_lt(b, a)
    }
}

/// Whether key `a` comes strictly before key `b` (see `key_less`).
pub fn key_lt(a: &PqlValue, b: &PqlValue) -> (r: bool)
    ensures
        r == key_less(a@, b@),
{
    let ra = rank(a);
    let rb = rank(b);
    if ra != rb {
        return ra < rb;
    }
    match (a, b) {
        (PqlValue::Str(x), PqlValue::Str(y)) => string_less(x.as_str(), y.as_str()),
        (PqlValue::Boolean(x), PqlValue::Boolean(y)) => !*x && *y,
        (PqlValue::Float(x), PqlValue::Float(y)) => float_lt(x, y),
        (PqlValue::Int(x), PqlValue::Int(y)) => *x < *y,
        (PqlValue::DateTime(x), PqlValue::DateTime(y)) => *x < *y,
        _ => false,
    }
}

fn rank(v: &PqlValue) -> (r: u8)
    ensures
        r == key_rank(v@),
{
    match v {
        PqlValue::Null => 0,
        PqlValue::Str(_) => 1,
        PqlValue::Boolean(_) => 2,
        PqlValue::Float(_) => 3,
        PqlValue::Int(_) => 4,
        PqlValue::DateTime(_) => 5,
        PqlValue::Array(_) => 6,
        PqlValue::Object(_) => 7,
    }
}

/// The models of keyed rows.
pub open spec fn keyed_model(s: Seq<(PqlValue, PqlValue)>) -> Seq<Keyed> {
    s.map_values(|p: (PqlValue, PqlValue)| (p.0@, p.1@))
}

fn insert_keyed(t: &mut Vec<(PqlValue, PqlValue)>, x: (PqlValue, PqlValue), asc: bool)
    ensures
        keyed_model(final(t)@) == insert_sorted(keyed_model(old(t)@), (x.0@, x.1@), asc),
{
    let ghost tm = keyed_model(t@);
    let ghost k = x.0@;
    let mut j: usize = 0;
    let mut found = false;
    assert(tm.skip(0) =~= tm);
    while j < t.len() && !found
        invariant
            j <= t@.len(),
            tm == keyed_model(t@),
            k == x.0@,
            insert_pos(tm, k, asc) == j + insert_pos(tm.skip(j as int), k, asc),
            found ==> j < tm.len() && comes_before(k, tm[j as int].0, asc),
        decreases t@.len() - j, (if found { 0int } else { 1int }),
    {
        assert(tm.skip(j as int)[0] == tm[j as int]);
        let before = if asc {
            key_lt(&x.0, &t[j].0)
        } else {
            key_lt(&t[j].0, &x.0)
        };
        if before {
            found = true;
        } else {
            assert(tm.skip(j as int).drop_first() =~= tm.skip(j + 1));
            j = j + 1;
        }
    }
    assert(insert_pos(tm, k, asc) == j) by {
        if found {
            assert(tm.skip(j as int)[0] == tm[j as int]);
        } else {
            assert(tm.skip(j as int).len() == 0);
        }
    }
    t.insert(j, x);
    assert(keyed_model(t@) =~= insert_sorted(tm, (x.0@, x.1@), asc));
}

/// The rows of `ORDER BY label` (see `order_spec`).
pub fn order_rows(rows: Vec<PqlValue>, label: &str, asc: bool) -> (r: Result<
    Vec<PqlValue>,
    OrderError,
>)
    ensures
        match order_spec(models(rows@), label@, asc) {
            Ok(s) => r is Ok && models(r->Ok_0@) == s,
            Err(e) => r == Err::<Vec<PqlValue>, OrderError>(e),
        },
{
    let ghost rm = models(rows@);
    let mut sorted: Vec<(PqlValue, PqlValue)> = Vec::new();
    let ghost mut keyed: Seq<Keyed> = Seq::empty();
    let mut i: usize = 0;
    assert(rm.take(0) =~= Seq::<ValueModel>::empty());
    while i < rows.len()
        invariant
            i <= rows@.len(),
            rm == models(rows@),
            keyed_rows(rm.take(i as int), label@) == Ok::<Seq<Keyed>, OrderError>(keyed),
            keyed_model(sorted@) == sort_keyed(keyed, asc),
        decreases rows@.len() - i,
    {
        assert(rm.take(i + 1).drop_last() =~= rm.take(i as int));
        assert(rm.take(i + 1).last() == rm[i as int]);
        let row = rows[i].copy();
        match row.copy().get(label) {
            None => {},
            Some(k) => {
                match k {
                    PqlValue::Array(_) | PqlValue::Object(_) => {
                        proof {
                            lemma_keyed_rows_err(rm, label@, i + 1, OrderError::UnorderableKey);
                        }
                        return Err(OrderError::UnorderableKey);
                    },
                    _ => {},
                }
                let ghost old_keyed = keyed;
                proof {
                    keyed = keyed.push((k@, row@));
                    assert(keyed.drop_last() =~= old_keyed);
                }
                insert_keyed(&mut sorted, (k, row), asc);
            },
        }
        i = i + 1;
    }
    assert(rm.take(i as int) =~= rm);
    let mut out: Vec<PqlValue> = Vec::new();
    let ghost sm = keyed_model(sorted@);
    for p in it: sorted
        invariant
            it.seq() == sorted@,
            sm == keyed_model(sorted@),
            models(out@) == sm.take(it.index() as int).map_values(|p: Keyed| p.1),
    {
        let ghost before = models(out@);
        let ghost idx = it.index();
        out.push(p.1);
        assert(sm.take(idx + 1).map_values(|p: Keyed| p.1) =~= sm.take(idx as int).map_values(
            |p: Keyed| p.1,
        ).push(sm[idx as int].1));
        assert(models(out@) =~= before.push(sm[idx as int].1));
    }
    assert(sm.take(sm.len() as int) =~= sm);
    Ok(out)
}

/// An error met at some row stands for the whole list.
proof fn lemma_keyed_rows_err(rows: Seq<ValueModel>, label: Seq<char>, k: int, e: OrderError)
    requires
        0 <= k <= rows.len(),
        keyed_rows(rows.take(k), label) == Err::<Seq<Keyed>, OrderError>(e),
    ensures
        keyed_rows(rows, label) == Err::<Seq<Keyed>, OrderError>(e),
    decreases rows.len(),
{
    if k < rows.len() {
        assert(rows.drop_last().take(k) =~= rows.take(k));
        lemma_keyed_rows_err(rows.drop_last(), label, k, e);
    } else {
        assert(rows.take(k) =~= rows);
    }
}

/// The rows of `LIMIT limit OFFSET offset` (see `limit_spec`).
pub fn limit_rows(rows: Vec<PqlValue>, limit: u64, offset: u64) -> (r: Result<
    Vec<PqlValue>,
    OrderError,
>)
    ensures
        match limit_spec(models(rows@), limit, offset) {
            Ok(s) => r is Ok && models(r->Ok_0@) == s,
            Err(e) => r == Err::<Vec<PqlValue>, OrderError>(e),
        },
{
    let n = rows.len();
    let start: usize = if offset < n as u64 {
        offset as usize
    } else {
        n
    };
    let end: usize = if limit < (n - start) as u64 {
        start + limit as usize
    } else {
        n
    };
    let mut out: Vec<PqlValue> = Vec::new();
    let mut i: usize = start;
    assert(models(out@) =~= models(rows@).subrange(start as int, start as int));
    while i < end
        invariant
            start <= i <= end,
            end <= rows@.len(),
            models(out@) == models(rows@).subrange(start as int, i as int),
        decreases end - i,
    {
        let ghost before = models(out@);
        out.push(rows[i].copy());
        assert(models(out@) =~= before.push(rows@[i as int]@));
        assert(models(rows@)[i as int] == rows@[i as int]@);
        assert(models(out@) =~= models(rows@).subrange(start as int, i + 1));
        i = i + 1;
    }
    Ok(out)
}


/// Keyed rows in order: no row's key comes before the key of a row ahead of
/// it.
pub open spec fn sorted_by_key(s: Seq<Keyed>, asc: bool) -> bool {
    forall|i: int, j: int| 0 <= i < j < s.len() ==> !comes_before(s[j].0, s[i].0, asc)
}

/// No string comes before itself.
pub proof fn lemma_str_less_irreflexive(a: Seq<char>)
    ensures
        !str_less(a, a),
    decreases a.len(),
{
    if a.len() > 0 {
        lemma_str_less_irreflexive(a.drop_first());
    }
}

/// The order of strings is transitive.
pub proof fn lemma_str_less_transitive(a: Seq<char>, b: Seq<char>, c: Seq<char>)
    requires
        str_less(a, b),
        str_less(b, c),
    ensures
        str_less(a, c),
    decreases a.len(),
{
    if a.len() > 0 && b.len() > 0 && c.len() > 0 {
        if a[0] == b[0] && b[0] == c[0] {
            lemma_str_less_transitive(a.drop_first(), b.drop_first(), c.drop_first());
        }
    }
}

/// No digit sequence comes before itself.
pub proof fn lemma_digits_less_irreflexive(a: Seq<u8>)
    ensures
        !digits_less(a, a),
    decreases a.len(),
{
    if a.len() > 0 {
        lemma_digits_less_irreflexive(a.drop_first());
    }
}

/// The order of digit sequences is transitive.
pub proof fn lemma_digits_less_transitive(a: Seq<u8>, b: Seq<u8>, c: Seq<u8>)
    requires
        digits_less(a, b),
        digits_less(b, c),
    ensures
        digits_less(a, c),
    decreases a.len(),
{
    if a.len() > 0 && b.len() > 0 && c.len() > 0 {
        if a[0] == b[0] && b[0] == c[0] {
            lemma_digits_less_transitive(a.drop_first(), b.drop_first(), c.drop_first());
        }
    }
}

proof fn lemma_magnitude_less_transitive(a: FloatModel, b: FloatModel, c: FloatModel)
    requires
        magnitude_less(a, b),
        magnitude_less(b, c),
    ensures
        magnitude_less(a, c),
{
    if lead_place(a) == lead_place(b) && lead_place(b) == lead_place(c) {
        lemma_digits_less_transitive(a.digits, b.digits, c.digits);
    }
}

/// No decimal comes before itself, and the order of decimals is transitive.
pub proof fn lemma_float_less_order(a: FloatModel, b: FloatModel, c: FloatModel)
    ensures
        !float_less(a, a),
        float_less(a, b) && float_less(b, c) ==> float_less(a, c),
{
    lemma_digits_less_irreflexive(a.digits);
    if float_less(a, b) && float_less(b, c) {
        if float_sign(a) == float_sign(b) && float_sign(b) == float_sign(c) {
            if float_sign(a) > 0 {
                lemma_magnitude_less_transitive(a, b, c);
            } else {
                lemma_magnitude_less_transitive(c, b, a);
            }
        }
    }
}

/// Strings are ordered character by character: a proper prefix comes first,
/// and after a common prefix the first differing character decides by its
/// code point.
pub proof fn lemma_str_less_prefix(p: Seq<char>, c: char, d: char, t: Seq<char>, u: Seq<char>)
    ensures
        t.len() > 0 ==> str_less(p, p + t),
        !str_less(p + t, p),
        str_less(p.push(c) + t, p.push(d) + u) == ((c as u32) < (d as u32) || (c == d && str_less(t, u))),
    decreases p.len(),
{
    if p.len() > 0 {
        lemma_str_less_prefix(p.drop_first(), c, d, t, u);
        assert((p + t).drop_first() =~= p.drop_first() + t);
        assert(p.push(c).drop_first() =~= p.drop_first().push(c));
        assert(p.push(d).drop_first() =~= p.drop_first().push(d));
        assert((p.push(c) + t).drop_first() =~= p.drop_first().push(c) + t);
        assert((p.push(d) + u).drop_first() =~= p.drop_first().push(d) + u);
        assert((p + t)[0] == p[0]);
        assert((p.push(c) + t)[0] == p[0]);
        assert((p.push(d) + u)[0] == p[0]);
    } else {
        assert(p + t =~= t);
        assert(p.push(c) + t =~= seq![c] + t);
        assert(p.push(d) + u =~= seq![d] + u);
        assert((seq![c] + t).drop_first() =~= t);
        assert((seq![d] + u).drop_first() =~= u);
    }
}

/// Sort keys of one kind are ordered by their values: integers and
/// timestamps by size, `false` before `true`, and decimals by sign (negative
/// before zero before positive), positive decimals whose leading digits
/// stand at different places by that place.
pub proof fn lemma_key_order_by_value(x: i64, y: i64, a: FloatModel, b: FloatModel)
    ensures
        key_less(ValueModel::Int(x), ValueModel::Int(y)) == (x < y),
        key_less(ValueModel::DateTime(x), ValueModel::DateTime(y)) == (x < y),
        key_less(ValueModel::Boolean(false), ValueModel::Boolean(true)),
        !key_less(ValueModel::Boolean(true), ValueModel::Boolean(false)),
        (a.digits.len() > 0 && a.negative && b.digits.len() == 0) ==> key_less(
            ValueModel::Float(a),
            ValueModel::Float(b),
        ),
        (a.digits.len() == 0 && b.digits.len() > 0 && !b.negative) ==> key_less(
            ValueModel::Float(a),
            ValueModel::Float(b),
        ),
        (a.digits.len() > 0 && !a.negative && b.digits.len() > 0 && !b.negative && a.digits.len()
            + a.exponent < b.digits.len() + b.exponent) ==> key_less(
            ValueModel::Float(a),
            ValueModel::Float(b),
        ),
        (a.digits.len() > 0 && a.negative && b.digits.len() > 0 && b.negative && a.digits.len()
            + a.exponent > b.digits.len() + b.exponent) ==> key_less(
            ValueModel::Float(a),
            ValueModel::Float(b),
        ),
{
}

/// No key comes before itself.
pub proof fn lemma_key_less_irreflexive(a: ValueModel)
    ensures
        !key_less(a, a),
{
    match a {
        ValueModel::Str(x) => lemma_str_less_irreflexive(x),
        ValueModel::Float(x) => lemma_float_less_order(x, x, x),
        _ => {},
    }
}

/// The order of keys is transitive.
pub proof fn lemma_key_less_transitive(a: ValueModel, b: ValueModel, c: ValueModel)
    requires
        key_less(a, b),
        key_less(b, c),
    ensures
        key_less(a, c),
{
    if key_rank(a) == key_rank(b) && key_rank(b) == key_rank(c) {
        match (a, b, c) {
            (ValueModel::Str(x), ValueModel::Str(y), ValueModel::Str(z)) => {
                lemma_str_less_transitive(x, y, z);
            },
            (ValueModel::Float(x), ValueModel::Float(y), ValueModel::Float(z)) => {
                lemma_float_less_order(x, y, z);
            },
            _ => {},
        }
    }
}

proof fn lemma_comes_before(a: ValueModel, b: ValueModel, c: ValueModel, asc: bool)
    ensures
        !comes_before(a, a, asc),
        comes_before(a, b, asc) && comes_before(b, c, asc) ==> comes_before(a, c, asc),
{
    lemma_key_less_irreflexive(a);
    if comes_before(a, b, asc) && comes_before(b, c, asc) {
        if asc {
            lemma_key_less_transitive(a, b, c);
        } else {
            lemma_key_less_transitive(c, b, a);
        }
    }
}

/// Where a key goes: after every row whose key does not come after it, and
/// before the first row whose key does.
proof fn lemma_insert_pos(t: Seq<Keyed>, k: ValueModel, asc: bool)
    ensures
        0 <= insert_pos(t, k, asc) <= t.len(),
        forall|i: int| 0 <= i < insert_pos(t, k, asc) ==> !comes_before(k, #[trigger] t[i].0, asc),
        insert_pos(t, k, asc) < t.len() ==> comes_before(k, t[insert_pos(t, k, asc)].0, asc),
    decreases t.len(),
{
    if t.len() > 0 && !comes_before(k, t[0].0, asc) {
        lemma_insert_pos(t.drop_first(), k, asc);
        assert forall|i: int| 0 <= i < insert_pos(t, k, asc) implies !comes_before(
            k,
            #[trigger] t[i].0,
            asc,
        ) by {
            if i > 0 {
                assert(t[i] == t.drop_first()[i - 1]);
            }
        }
    }
}

/// Inserting a row at its place keeps rows in order.
proof fn lemma_insert_sorted(t: Seq<Keyed>, x: Keyed, asc: bool)
    requires
        sorted_by_key(t, asc),
    ensures
        sorted_by_key(insert_sorted(t, x, asc), asc),
        insert_sorted(t, x, asc).to_multiset() == t.to_multiset().insert(x),
{
    broadcast use vstd::seq_lib::group_to_multiset_ensures, vstd::multiset::group_multiset_axioms;

    let p = insert_pos(t, x.0, asc);
    lemma_insert_pos(t, x.0, asc);
    let u = insert_sorted(t, x, asc);
    assert(u.len() == t.len() + 1);
    assert forall|i: int| 0 <= i < u.len() implies #[trigger] u[i] == if i < p {
        t[i]
    } else if i == p {
        x
    } else {
        t[i - 1]
    } by {}
    assert forall|i: int, j: int| 0 <= i < j < u.len() implies !comes_before(
        u[j].0,
        u[i].0,
        asc,
    ) by {
        if j == p {
        } else if i == p {
            lemma_comes_before(t[j - 1].0, x.0, t[p].0, asc);
            if j - 1 > p {
                assert(!comes_before(t[j - 1].0, t[p].0, asc));
            }
        } else {
            let a = if i < p {
                i
            } else {
                i - 1
            };
            let b = if j < p {
                j
            } else {
                j - 1
            };
            assert(u[i] == t[a] && u[j] == t[b]);
            if a == b {
                lemma_comes_before(t[a].0, t[a].0, t[a].0, asc);
            }
        }
    }
    assert(u.remove(p) =~= t);
    assert(u[p] == x);
    assert(u.to_multiset().count(x) > 0) by {
        assert(u.contains(x));
    }
    assert(u.to_multiset() =~= t.to_multiset().insert(x));
}

/// `ORDER BY` keeps the rows that have a key, in order of their keys: the
/// sorted rows are in order, and are the same rows (as a multiset).
pub proof fn lemma_sort_keyed(s: Seq<Keyed>, asc: bool)
    ensures
        sorted_by_key(sort_keyed(s, asc), asc),
        sort_keyed(s, asc).to_multiset() == s.to_multiset(),
    decreases s.len(),
{
    broadcast use vstd::seq_lib::group_to_multiset_ensures;

    if s.len() > 0 {
        lemma_sort_keyed(s.drop_last(), asc);
        lemma_insert_sorted(sort_keyed(s.drop_last(), asc), s.last(), asc);
        assert(s =~= s.drop_last().push(s.last()));
    } else {
        assert(sort_keyed(s, asc) =~= s);
    }
}

/// The rows of `ORDER BY label` are the rows that have a value under
/// `label`, sorted by it: in order of their keys, and the same rows.
pub proof fn lemma_order_rows(rows: Seq<ValueModel>, label: Seq<char>, asc: bool)
    requires
        keyed_rows(rows, label) is Ok,
    ensures
        ({
            let k = keyed_rows(rows, label)->Ok_0;
            &&& sorted_by_key(sort_keyed(k, asc), asc)
            &&& sort_keyed(k, asc).to_multiset() == k.to_multiset()
            &&& order_spec(rows, label, asc) == Ok::<Seq<ValueModel>, OrderError>(
                sort_keyed(k, asc).map_values(|p: Keyed| p.1),
            )
        }),
{
    lemma_sort_keyed(keyed_rows(rows, label)->Ok_0, asc);
}

/// `LIMIT limit OFFSET offset` always succeeds and gives the rows from
/// position `offset` on, as many as `limit` allows and the rows hold: none
/// when `offset` is past the end.
pub proof fn lemma_limit_rows(rows: Seq<ValueModel>, limit: u64, offset: u64)
    ensures
        limit_spec(rows, limit, offset) is Ok,
        limit_spec(rows, limit, offset)->Ok_0.len() == if offset >= rows.len() {
            0
        } else {
            min_int(limit as int, rows.len() - offset)
        },
        forall|i: int|
            0 <= i < limit_spec(rows, limit, offset)->Ok_0.len() ==> #[trigger] limit_spec(
                rows,
                limit,
                offset,
            )->Ok_0[i] == rows[offset + i],
{
}

} // verus!
