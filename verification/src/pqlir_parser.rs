//! The parser of the PartiQL value notation: `null`, `true`, `false`,
//! integers, decimal floats, quoted strings, arrays `[...]`, bags `<<...>>`
//! and objects `{'key': value, ...}`, with `--` comments.
use vstd::prelude::*;

use crate::regex_support::{regex_replace_all, regex_replaced, regex_valid};
use crate::text::{chars_of, string_from_chars};
use crate::value::{
    entries_model, float_canonical, lemma_view_unfold, models, obj_insert, FloatModel, PqlFloat,
    PqlObject, PqlValue, ValueModel,
};

verus! {

/// The outcome of a parser at a position: a result and the position after
/// it; a mismatch that lets an alternative be tried; a mismatch
/// after the parser committed (`Failure`); or a number that does not fit
/// (`Overflow`), which ends all parsing.
pub ghost enum Outcome<T> {
    Success(T, int),
    Mismatch,
    Failure,
    Overflow,
}

/// The same, for executable results.
pub enum Parsed<T> {
    Success(T, usize),
    Mismatch,
    Failure,
    Overflow,
}

/// Multispace: space, tab, carriage return, line feed.
pub open spec fn is_ws(c: char) -> bool {
    c == ' ' || c == '\t' || c == '\r' || c == '\n'
}

pub open spec fn is_digit(c: char) -> bool {
    '0' <= c <= '9'
}

/// ASCII letters and digits.
pub open spec fn is_alnum(c: char) -> bool {
    ('0' <= c <= '9') || ('a' <= c <= 'z') || ('A' <= c <= 'Z')
}

/// The first position at or after `i` that is not multispace.
pub open spec fn ws_end(s: Seq<char>, i: int) -> int
    decreases s.len() - i,
{
    if 0 <= i < s.len() && is_ws(s[i]) {
        ws_end(s, i + 1)
    } else {
        i
    }
}

/// Skipping multispace moves forward and stays within the text.
pub proof fn lemma_ws_end(s: Seq<char>, i: int)
    requires
        0 <= i <= s.len(),
    ensures
        i <= ws_end(s, i) <= s.len(),
        forall|k: int| i <= k < ws_end(s, i) ==> is_ws(#[trigger] s[k]),
        ws_end(s, i) < s.len() ==> !is_ws(s[ws_end(s, i)]),
    decreases s.len() - i,
{
    if i < s.len() && is_ws(s[i]) {
        lemma_ws_end(s, i + 1);
    }
}

/// Skipping whitespace skips exactly the multispace characters: every
/// character from `i` to the end of the run is a space, a tab, a carriage
/// return or a line feed, and the character after the run (if any) is none
/// of these; a carriage return is skipped like any other.
pub proof fn lemma_ws_skips_multispace(s: Seq<char>, i: int)
    requires
        0 <= i <= s.len(),
    ensures
        i <= ws_end(s, i) <= s.len(),
        forall|k: int|
            i <= k < ws_end(s, i) ==> #[trigger] s[k] == ' ' || s[k] == '\t' || s[k] == '\r' || s[k]
                == '\n',
        ws_end(s, i) < s.len() ==> !(s[ws_end(s, i)] == ' ' || s[ws_end(s, i)] == '\t' || s[ws_end(
            s,
            i,
        )] == '\r' || s[ws_end(s, i)] == '\n'),
    decreases s.len() - i,
{
    if i < s.len() && is_ws(s[i]) {
        lemma_ws_skips_multispace(s, i + 1);
    }
}

/// Whether `t` occurs in `s` at position `i`.
pub open spec fn tag_at(s: Seq<char>, i: int, t: Seq<char>) -> bool {
    0 <= i && i + t.len() <= s.len() && s.subrange(i, i + t.len()) == t
}

/// The first position at or after `i` that is not a digit or `_`.
pub open spec fn digits_end(s: Seq<char>, i: int) -> int
    decreases s.len() - i,
{
    if 0 <= i < s.len() && (is_digit(s[i]) || s[i] == '_') {
        digits_end(s, i + 1)
    } else {
        i
    }
}

/// A digit followed by digits and `_`: its end, if there is one at `i`.
pub open spec fn decimal1(s: Seq<char>, i: int) -> Option<int> {
    if 0 <= i < s.len() && is_digit(s[i]) {
        Some(digits_end(s, i + 1))
    } else {
        None
    }
}

/// The digit values of a run of digits and `_`, the `_` left out.
pub open spec fn digit_values(t: Seq<char>) -> Seq<u8>
    decreases t.len(),
{
    if t.len() == 0 {
        Seq::empty()
    } else if t.last() == '_' {
        digit_values(t.drop_last())
    } else {
        digit_values(t.drop_last()).push((t.last() as u32 - '0' as u32) as u8)
    }
}

/// The natural number written by decimal digit values.
pub open spec fn digits_nat(d: Seq<u8>) -> nat
    decreases d.len(),
{
    if d.len() == 0 {
        0
    } else {
        digits_nat(d.drop_last()) * 10 + d.last() as nat
    }
}

/// All digit values are zero.
pub open spec fn all_zero(d: Seq<u8>) -> bool {
    forall|k: int| 0 <= k < d.len() ==> d[k] == 0
}

/// The position of the first nonzero digit value.
pub open spec fn first_nonzero(d: Seq<u8>) -> int {
    choose|k: int| 0 <= k < d.len() && d[k] != 0 && forall|j: int| 0 <= j < k ==> d[j] == 0
}

/// The position of the last nonzero digit value.
pub open spec fn last_nonzero(d: Seq<u8>) -> int {
    choose|k: int| 0 <= k < d.len() && d[k] != 0 && forall|j: int| k < j < d.len() ==> d[j] == 0
}

/// The decimal `(-1)^negative * d * 10^e` in canonical form, `None` when
/// its exponent does not fit in `i64`.
#[verifier::opaque]
pub open spec fn decimal_value(negative: bool, d: Seq<u8>, e: int) -> Option<FloatModel> {
    if all_zero(d) {
        Some(FloatModel { negative: false, digits: Seq::empty(), exponent: 0 })
    } else {
        let lo = first_nonzero(d);
        let hi = last_nonzero(d);
        let ex = e + (d.len() - 1 - hi);
        if i64::MIN <= ex <= i64::MAX {
            Some(FloatModel { negative, digits: d.subrange(lo, hi + 1), exponent: ex as i64 })
        } else {
            None
        }
    }
}

/// An exponent part `e` or `E`, an optional sign, and `decimal1`: whether
/// it is negative, where its digits start, and where it ends.
pub open spec fn exponent_part(s: Seq<char>, i: int) -> Option<(bool, int, int)> {
    if 0 <= i < s.len() && (s[i] == 'e' || s[i] == 'E') {
        let has_sign = i + 1 < s.len() && (s[i + 1] == '+' || s[i + 1] == '-');
        let ds = if has_sign {
            i + 2
        } else {
            i + 1
        };
        match decimal1(s, ds) {
            Some(end) => Some((has_sign && s[i + 1] == '-', ds, end)),
            None => None,
        }
    } else {
        None
    }
}

/// A float is written `.42`, `.42e10` (the exponent part optional), `42e10`
/// or `42.42e10` (the exponent part required), or `42.` and `42.42`; the
/// forms are tried in that order. The value: the digits of the integer and
/// fraction parts (without `_`), scaled by the exponent; `Overflow` when the
/// exponent's digits exceed `u64` or the scaled exponent exceeds `i64`.
pub open spec fn float_at(s: Seq<char>, i: int) -> Outcome<FloatModel> {
    if 0 <= i < s.len() && s[i] == '.' && decimal1(s, i + 1) is Some {
        float_dot_at(s, i)
    } else if decimal1(s, i) is Some {
        float_digits_at(s, i, decimal1(s, i)->Some_0)
    } else {
        Outcome::Mismatch
    }
}

/// The form `.42`, with an optional exponent part.
pub open spec fn float_dot_at(s: Seq<char>, i: int) -> Outcome<FloatModel> {
    let fe = decimal1(s, i + 1)->Some_0;
    let frac = digit_values(s.subrange(i + 1, fe));
    match exponent_part(s, fe) {
        Some((neg, ds, end)) => float_from(s, frac, frac.len() as int, neg, ds, end),
        None => float_from(s, frac, frac.len() as int, false, fe, fe),
    }
}

/// The forms that start with the digits `i..ie`: `42e10` and `42.42e10`,
/// else `42.` and `42.42`.
pub open spec fn float_digits_at(s: Seq<char>, i: int, ie: int) -> Outcome<FloatModel> {
    let int_digits = digit_values(s.subrange(i, ie));
    let (fe, frac) = if ie < s.len() && s[ie] == '.' && decimal1(s, ie + 1) is Some {
        let fe = decimal1(s, ie + 1)->Some_0;
        (fe, digit_values(s.subrange(ie + 1, fe)))
    } else {
        (ie, Seq::<u8>::empty())
    };
    match exponent_part(s, fe) {
        Some((neg, ds, end)) => float_from(s, int_digits + frac, frac.len() as int, neg, ds, end),
        None => {
            if ie < s.len() && s[ie] == '.' {
                match decimal1(s, ie + 1) {
                    Some(fe2) => {
                        let frac2 = digit_values(s.subrange(ie + 1, fe2));
                        float_from(s, int_digits + frac2, frac2.len() as int, false, fe2, fe2)
                    },
                    None => float_from(s, int_digits, 0, false, ie + 1, ie + 1),
                }
            } else {
                Outcome::Mismatch
            }
        },
    }
}

/// The float with mantissa digits `d`, `frac_len` of them after the point,
/// and the exponent whose digits span `ds..end` (none when `ds == end`).
#[verifier::opaque]
pub open spec fn float_from(
    s: Seq<char>,
    d: Seq<u8>,
    frac_len: int,
    exp_neg: bool,
    ds: int,
    end: int,
) -> Outcome<FloatModel> {
    if all_zero(d) {
        Outcome::Success(FloatModel { negative: false, digits: Seq::empty(), exponent: 0 }, end)
    } else {
        let ev = digits_nat(digit_values(s.subrange(ds, end)));
        if ev > u64::MAX {
            Outcome::Overflow
        } else {
            let e = if exp_neg {
                -ev
            } else {
                ev as int
            };
            match decimal_value(false, d, e - frac_len) {
                Some(f) => Outcome::Success(f, end),
                None => Outcome::Overflow,
            }
        }
    }
}

/// An integer: an optional sign and `decimal1`; `Overflow` when it does
/// not fit in `i64`.
pub open spec fn integer_at(s: Seq<char>, i: int) -> Outcome<i64> {
    let has_sign = 0 <= i < s.len() && (s[i] == '+' || s[i] == '-');
    let ds = if has_sign {
        i + 1
    } else {
        i
    };
    match decimal1(s, ds) {
        Some(end) => {
            let n = digits_nat(digit_values(s.subrange(ds, end)));
            let v = if has_sign && s[i] == '-' {
                -n
            } else {
                n as int
            };
            if i64::MIN <= v <= i64::MAX {
                Outcome::Success(v as i64, end)
            } else {
                Outcome::Overflow
            }
        },
        None => Outcome::Mismatch,
    }
}


/// Each digit value is at most 9.
pub proof fn lemma_digit_values_small(t: Seq<char>)
    requires
        forall|k: int| 0 <= k < t.len() ==> is_digit(#[trigger] t[k]) || t[k] == '_',
    ensures
        forall|k: int| 0 <= k < digit_values(t).len() ==> #[trigger] digit_values(t)[k] < 10,
    decreases t.len(),
{
    if t.len() > 0 {
        assert forall|k: int| 0 <= k < t.drop_last().len() implies is_digit(
            #[trigger] t.drop_last()[k],
        ) || t.drop_last()[k] == '_' by {
            assert(t.drop_last()[k] == t[k]);
        }
        lemma_digit_values_small(t.drop_last());
        let c = t.last();
        assert(is_digit(t[t.len() - 1]) || t[t.len() - 1] == '_');
        if c != '_' {
            let x = (c as u32 - '0' as u32) as u8;
            assert(0 <= (c as u32 - '0' as u32) < 10);
            assert(x < 10);
            assert(digit_values(t) == digit_values(t.drop_last()).push(x));
        } else {
            assert(digit_values(t) == digit_values(t.drop_last()));
        }
    }
}

/// A value only grows as digits are appended.
pub proof fn lemma_digits_nat_prefix(d: Seq<u8>, k: int)
    requires
        0 <= k <= d.len(),
    ensures
        digits_nat(d.take(k)) <= digits_nat(d),
    decreases d.len() - k,
{
    if k < d.len() {
        lemma_digits_nat_prefix(d, k + 1);
        assert(d.take(k + 1).drop_last() =~= d.take(k));
    } else {
        assert(d.take(k) =~= d);
    }
}

pub(crate) fn ws_end_exec(s: &Vec<char>, i: usize) -> (r: usize)
    requires
        i <= s@.len(),
    ensures
        r == ws_end(s@, i as int),
        i <= r <= s@.len(),
    decreases s@.len() - i,
{
    if i < s.len() && (s[i] == ' ' || s[i] == '\t' || s[i] == '\r' || s[i] == '\n') {
        ws_end_exec(s, i + 1)
    } else {
        i
    }
}

pub(crate) fn tag_at_exec(s: &Vec<char>, i: usize, t: &str) -> (r: bool)
    requires
        i <= s@.len(),
    ensures
        r == tag_at(s@, i as int, t@),
{
    let tc = chars_of(t);
    if tc.len() > s.len() - i {
        return false;
    }
    let mut k: usize = 0;
    while k < tc.len()
        invariant
            tc@ == t@,
            i + tc@.len() <= s@.len(),
            k <= tc@.len(),
            forall|j: int| 0 <= j < k ==> s@[i + j] == tc@[j],
        decreases tc@.len() - k,
    {
        assert(i + k < s.len());
        if s[i + k] != tc[k] {
            assert(s@.subrange(i as int, i + tc@.len())[k as int] != t@[k as int]);
            return false;
        }
        k = k + 1;
    }
    assert(s@.subrange(i as int, i + tc@.len()) =~= t@);
    true
}

fn digits_end_exec(s: &Vec<char>, i: usize) -> (r: usize)
    requires
        i <= s@.len(),
    ensures
        r == digits_end(s@, i as int),
        i <= r <= s@.len(),
        forall|k: int| i <= k < r ==> is_digit(#[trigger] s@[k]) || s@[k] == '_',
    decreases s@.len() - i,
{
    if i < s.len() && (('0' <= s[i] && s[i] <= '9') || s[i] == '_') {
        digits_end_exec(s, i + 1)
    } else {
        i
    }
}

fn decimal1_exec(s: &Vec<char>, i: usize) -> (r: Option<usize>)
    requires
        i <= s@.len(),
    ensures
        match r {
            Some(e) => decimal1(s@, i as int) == Some(e as int) && i < e <= s@.len() && forall|k: int|
                i <= k < e ==> is_digit(#[trigger] s@[k]) || s@[k] == '_',
            None => decimal1(s@, i as int) is None,
        },
{
    if i < s.len() && '0' <= s[i] && s[i] <= '9' {
        Some(digits_end_exec(s, i + 1))
    } else {
        None
    }
}

pub(crate) fn digit_values_exec(s: &Vec<char>, a: usize, b: usize) -> (r: Vec<u8>)
    requires
        a <= b <= s@.len(),
        forall|k: int| a <= k < b ==> is_digit(#[trigger] s@[k]) || s@[k] == '_',
    ensures
        r@ == digit_values(s@.subrange(a as int, b as int)),
        forall|k: int| 0 <= k < r@.len() ==> #[trigger] r@[k] < 10,
{
    let mut out: Vec<u8> = Vec::new();
    let mut k: usize = a;
    while k < b
        invariant
            a <= k <= b <= s@.len(),
            forall|j: int| a <= j < b ==> is_digit(#[trigger] s@[j]) || s@[j] == '_',
            out@ == digit_values(s@.subrange(a as int, k as int)),
        decreases b - k,
    {
        assert(s@.subrange(a as int, k + 1).drop_last() =~= s@.subrange(a as int, k as int));
        let c = s[k];
        if c != '_' {
            let d: u8 = ((c as u32) - ('0' as u32)) as u8;
            out.push(d);
        }
        k = k + 1;
    }
    proof {
        lemma_digit_values_small(s@.subrange(a as int, b as int));
    }
    out
}

/// `digits_nat(d)` if it fits in `u64`.
pub(crate) fn digits_u64(d: &Vec<u8>) -> (r: Option<u64>)
    requires
        forall|k: int| 0 <= k < d@.len() ==> #[trigger] d@[k] < 10,
    ensures
        match r {
            Some(n) => n == digits_nat(d@),
            None => digits_nat(d@) > u64::MAX,
        },
{
    let mut acc: u64 = 0;
    let mut k: usize = 0;
    while k < d.len()
        invariant
            k <= d@.len(),
            forall|j: int| 0 <= j < d@.len() ==> #[trigger] d@[j] < 10,
            acc == digits_nat(d@.take(k as int)),
        decreases d@.len() - k,
    {
        assert(d@.take(k + 1).drop_last() =~= d@.take(k as int));
        let dk = d[k] as u64;
        match acc.checked_mul(10) {
            Some(m) => match m.checked_add(dk) {
                Some(n) => {
                    acc = n;
                },
                None => {
                    proof {
                        lemma_digits_nat_prefix(d@, k + 1);
                    }
                    return None;
                },
            },
            None => {
                proof {
                    lemma_digits_nat_prefix(d@, k + 1);
                }
                return None;
            },
        }
        k = k + 1;
    }
    assert(d@.take(k as int) =~= d@);
    Some(acc)
}

fn all_zero_exec(d: &Vec<u8>) -> (r: bool)
    ensures
        r == all_zero(d@),
{
    let mut k: usize = 0;
    while k < d.len()
        invariant
            k <= d@.len(),
            forall|j: int| 0 <= j < k ==> d@[j] == 0,
        decreases d@.len() - k,
    {
        if d[k] != 0 {
            return false;
        }
        k = k + 1;
    }
    true
}

/// The canonical decimal of `d * 10^e`, `None` when its exponent does not
/// fit in `i64`.
fn decimal_value_exec(d: &Vec<u8>, e: i128) -> (r: Option<PqlFloat>)
    requires
        forall|k: int| 0 <= k < d@.len() ==> #[trigger] d@[k] < 10,
        -0x1_0000_0000_0000_0000_0000_0000 < e < 0x1_0000_0000_0000_0000_0000_0000,
    ensures
        match r {
            Some(f) => decimal_value(false, d@, e as int) == Some(f@) && float_canonical(f@),
            None => decimal_value(false, d@, e as int) is None,
        },
{
    reveal(decimal_value);
    if all_zero_exec(d) {
        return Some(PqlFloat { negative: false, digits: Vec::new(), exponent: 0 });
    }
    let mut lo: usize = 0;
    assert(exists|j: int| 0 <= j < d@.len() && d@[j] != 0);
    while d[lo] == 0
        invariant
            lo < d.len(),
            exists|j: int| lo <= j < d@.len() && d@[j] != 0,
            forall|j: int| 0 <= j < lo ==> d@[j] == 0,
        decreases d@.len() - lo,
    {
        lo = lo + 1;
    }
    let mut hi: usize = d.len() - 1;
    while d[hi] == 0
        invariant
            lo <= hi < d@.len(),
            d@[lo as int] != 0,
            forall|j: int| hi < j < d@.len() ==> d@[j] == 0,
        decreases hi,
    {
        hi = hi - 1;
    }
    proof {
        let l2 = first_nonzero(d@);
        assert(0 <= l2 < d@.len() && d@[l2] != 0 && forall|j: int| 0 <= j < l2 ==> d@[j] == 0);
        if l2 < lo {
            assert(d@[l2] == 0);
        }
        if lo < l2 {
            assert(d@[lo as int] == 0);
        }
        let h2 = last_nonzero(d@);
        assert(0 <= h2 < d@.len() && d@[h2] != 0);
        if h2 < hi {
            assert(d@[hi as int] == 0);
        }
        if hi < h2 {
            assert(d@[h2] == 0);
        }
    }
    let ex: i128 = e + ((d.len() - 1 - hi) as i128);
    if ex < i64::MIN as i128 || ex > i64::MAX as i128 {
        return None;
    }
    let mut digits: Vec<u8> = Vec::new();
    let mut k: usize = lo;
    while k <= hi
        invariant
            lo <= k <= hi + 1,
            hi < d.len(),
            digits@ == d@.subrange(lo as int, k as int),
        decreases hi + 1 - k,
    {
        digits.push(d[k]);
        assert(d@.subrange(lo as int, k + 1) =~= d@.subrange(lo as int, k as int).push(d@[k as int]));
        k = k + 1;
    }
    Some(PqlFloat { negative: false, digits, exponent: ex as i64 })
}


/// The model of an executable outcome, given the model of its result.
pub open spec fn float_outcome(r: Parsed<PqlFloat>) -> Outcome<FloatModel> {
    match r {
        Parsed::Success(f, e) => Outcome::Success(f@, e as int),
        Parsed::Mismatch => Outcome::Mismatch,
        Parsed::Failure => Outcome::Failure,
        Parsed::Overflow => Outcome::Overflow,
    }
}

fn exponent_part_exec(s: &Vec<char>, i: usize) -> (r: Option<(bool, usize, usize)>)
    requires
        i <= s@.len(),
    ensures
        match r {
            Some((neg, ds, end)) => exponent_part(s@, i as int) == Some(
                (neg, ds as int, end as int),
            ) && ds < end <= s@.len() && forall|k: int|
                ds <= k < end ==> is_digit(#[trigger] s@[k]) || s@[k] == '_',
            None => exponent_part(s@, i as int) is None,
        },
{
    if i < s.len() && (s[i] == 'e' || s[i] == 'E') {
        let has_sign = i + 1 < s.len() && (s[i + 1] == '+' || s[i + 1] == '-');
        let ds = if has_sign {
            i + 2
        } else {
            i + 1
        };
        match decimal1_exec(s, ds) {
            Some(end) => Some((has_sign && s[i + 1] == '-', ds, end)),
            None => None,
        }
    } else {
        None
    }
}

fn float_from_exec(
    s: &Vec<char>,
    d: Vec<u8>,
    frac_len: usize,
    exp_neg: bool,
    ds: usize,
    end: usize,
) -> (r: Parsed<PqlFloat>)
    requires
        ds <= end <= s@.len(),
        forall|k: int| ds <= k < end ==> is_digit(#[trigger] s@[k]) || s@[k] == '_',
        forall|k: int| 0 <= k < d@.len() ==> #[trigger] d@[k] < 10,
    ensures
        float_outcome(r) == float_from(s@, d@, frac_len as int, exp_neg, ds as int, end as int),
        r matches Parsed::Success(f, e) ==> float_canonical(f@) && e == end,
{
    reveal(float_from);
    if all_zero_exec(&d) {
        return Parsed::Success(PqlFloat { negative: false, digits: Vec::new(), exponent: 0 }, end);
    }
    let ev_digits = digit_values_exec(s, ds, end);
    match digits_u64(&ev_digits) {
        None => Parsed::Overflow,
        Some(ev) => {
            let e: i128 = if exp_neg {
                -(ev as i128)
            } else {
                ev as i128
            };
            let e2: i128 = e - frac_len as i128;
            match decimal_value_exec(&d, e2) {
                Some(f) => Parsed::Success(f, end),
                None => Parsed::Overflow,
            }
        },
    }
}

fn concat_digits(a: Vec<u8>, b: &Vec<u8>) -> (r: Vec<u8>)
    ensures
        r@ == a@ + b@,
{
    let mut r = a;
    let mut k: usize = 0;
    let ghost a0 = r@;
    while k < b.len()
        invariant
            k <= b@.len(),
            r@ == a0 + b@.take(k as int),
        decreases b@.len() - k,
    {
        r.push(b[k]);
        assert(b@.take(k + 1) =~= b@.take(k as int).push(b@[k as int]));
        k = k + 1;
    }
    assert(b@.take(k as int) =~= b@);
    r
}

/// Parses a float at `i` (see `float_at`).
pub fn float_exec(s: &Vec<char>, i: usize) -> (r: Parsed<PqlFloat>)
    requires
        i <= s@.len(),
    ensures
        float_outcome(r) == float_at(s@, i as int),
        r matches Parsed::Success(f, e) ==> float_canonical(f@) && i < e <= s@.len(),
{
    if i < s.len() && s[i] == '.' {
        if let Some(fe) = decimal1_exec(s, i + 1) {
            return float_dot_exec(s, i, fe);
        }
    }
    match decimal1_exec(s, i) {
        None => Parsed::Mismatch,
        Some(ie) => float_digits_exec(s, i, ie),
    }
}

fn float_dot_exec(s: &Vec<char>, i: usize, fe: usize) -> (r: Parsed<PqlFloat>)
    requires
        i < s@.len(),
        s@[i as int] == '.',
        decimal1(s@, i + 1) == Some(fe as int),
        i + 1 < fe <= s@.len(),
        forall|k: int| i + 1 <= k < fe ==> is_digit(#[trigger] s@[k]) || s@[k] == '_',
    ensures
        float_outcome(r) == float_dot_at(s@, i as int),
        r matches Parsed::Success(f, e) ==> float_canonical(f@) && i < e <= s@.len(),
{
    let frac = digit_values_exec(s, i + 1, fe);
    let fl = frac.len();
    match exponent_part_exec(s, fe) {
        Some((neg, ds, end)) => float_from_exec(s, frac, fl, neg, ds, end),
        None => float_from_exec(s, frac, fl, false, fe, fe),
    }
}

#[verifier::rlimit(30)]
fn float_digits_exec(s: &Vec<char>, i: usize, ie: usize) -> (r: Parsed<PqlFloat>)
    requires
        decimal1(s@, i as int) == Some(ie as int),
        i < ie <= s@.len(),
        forall|k: int| i <= k < ie ==> is_digit(#[trigger] s@[k]) || s@[k] == '_',
    ensures
        float_outcome(r) == float_digits_at(s@, i as int, ie as int),
        r matches Parsed::Success(f, e) ==> float_canonical(f@) && i < e <= s@.len(),
{
    let int_digits = digit_values_exec(s, i, ie);
    let mut fe = ie;
    let mut frac: Vec<u8> = Vec::new();
    if ie < s.len() && s[ie] == '.' {
        if let Some(f) = decimal1_exec(s, ie + 1) {
            fe = f;
            frac = digit_values_exec(s, ie + 1, f);
        }
    }
    match exponent_part_exec(s, fe) {
        Some((neg, ds, end)) => {
            let fl = frac.len();
            let d = concat_digits(int_digits, &frac);
            float_from_exec(s, d, fl, neg, ds, end)
        },
        None => {
            if ie < s.len() && s[ie] == '.' {
                match decimal1_exec(s, ie + 1) {
                    Some(fe2) => {
                        let frac2 = digit_values_exec(s, ie + 1, fe2);
                        let fl = frac2.len();
                        let d = concat_digits(int_digits, &frac2);
                        float_from_exec(s, d, fl, false, fe2, fe2)
                    },
                    None => float_from_exec(s, int_digits, 0, false, ie + 1, ie + 1),
                }
            } else {
                Parsed::Mismatch
            }
        },
    }
}

/// Parses an integer at `i` (see `integer_at`).
pub fn integer_exec(s: &Vec<char>, i: usize) -> (r: Parsed<i64>)
    requires
        i <= s@.len(),
    ensures
        match r {
            Parsed::Success(v, e) => integer_at(s@, i as int) == Outcome::Success(v, e as int) && i
                < e <= s@.len(),
            Parsed::Mismatch => integer_at(s@, i as int) == Outcome::<i64>::Mismatch,
            Parsed::Failure => false,
            Parsed::Overflow => integer_at(s@, i as int) == Outcome::<i64>::Overflow,
        },
{
    let has_sign = i < s.len() && (s[i] == '+' || s[i] == '-');
    let ds = if has_sign {
        i + 1
    } else {
        i
    };
    match decimal1_exec(s, ds) {
        None => Parsed::Mismatch,
        Some(end) => {
            let dv = digit_values_exec(s, ds, end);
            match digits_u64(&dv) {
                None => Parsed::Overflow,
                Some(n) => {
                    let neg = has_sign && s[i] == '-';
                    let v: i128 = if neg {
                        -(n as i128)
                    } else {
                        n as i128
                    };
                    if v < i64::MIN as i128 || v > i64::MAX as i128 {
                        Parsed::Overflow
                    } else {
                        Parsed::Success(v as i64, end)
                    }
                },
            }
        },
    }
}


/// Characters that a string holds unescaped: ASCII letters and digits,
/// space, tab.
pub open spec fn is_plain(c: char) -> bool {
    is_alnum(c) || c == ' ' || c == '\t'
}

/// The characters that may follow a backslash: `"`, `n`, `\`.
pub open spec fn is_escapable(c: char) -> bool {
    c == '"' || c == 'n' || c == '\\'
}

/// The end of a string body that starts at `i`, scanned from `j`: plain
/// characters and escapes, up to the end of the text or the first other
/// character; `None` when an escape is broken or the body is empty and
/// not at the end of the text.
pub open spec fn escaped_from(s: Seq<char>, i: int, j: int) -> Option<int>
    decreases s.len() - j,
{
    if j >= s.len() {
        Some(s.len() as int)
    } else if is_plain(s[j]) {
        escaped_from(s, i, j + 1)
    } else if s[j] == '\\' {
        if j + 1 >= s.len() {
            None
        } else if is_escapable(s[j + 1]) {
            escaped_from(s, i, j + 2)
        } else {
            None
        }
    } else if j == i {
        None
    } else {
        Some(j)
    }
}

/// A string between `"` or `'` quotes: the characters between the quotes
/// as written (escapes are kept as they stand).
pub open spec fn string_at(s: Seq<char>, i: int) -> Outcome<Seq<char>> {
    if 0 <= i < s.len() && (s[i] == '"' || s[i] == '\'') {
        match escaped_from(s, i + 1, i + 1) {
            Some(e) => {
                if e < s.len() && s[e] == s[i] {
                    Outcome::Success(s.subrange(i + 1, e), e + 1)
                } else {
                    Outcome::Failure
                }
            },
            None => Outcome::Failure,
        }
    } else {
        Outcome::Mismatch
    }
}

/// `null`, `NULL`, `true` or `false`: the value and its length.
pub open spec fn word_at(s: Seq<char>, i: int) -> Option<(ValueModel, int)> {
    if tag_at(s, i, seq!['n', 'u', 'l', 'l']) || tag_at(s, i, seq!['N', 'U', 'L', 'L']) {
        Some((ValueModel::Null, 4))
    } else if tag_at(s, i, seq!['t', 'r', 'u', 'e']) {
        Some((ValueModel::Boolean(true), 4))
    } else if tag_at(s, i, seq!['f', 'a', 'l', 's', 'e']) {
        Some((ValueModel::Boolean(false), 5))
    } else {
        None
    }
}

/// The object built from key-value pairs in order: a repeated key keeps
/// its first position and takes its last value.
pub open spec fn object_of(pairs: Seq<(Seq<char>, ValueModel)>) -> Seq<(Seq<char>, ValueModel)>
    decreases pairs.len(),
{
    if pairs.len() == 0 {
        Seq::empty()
    } else {
        obj_insert(object_of(pairs.drop_last()), pairs.last().0, pairs.last().1)
    }
}

/// A value, after optional multispace: `null`, an object, an array, a bag,
/// a string, a float, an integer or a boolean, tried in that order.
pub open spec fn value_at(s: Seq<char>, i: int) -> Outcome<ValueModel>
    decreases s.len() - i, 0int,
{
    let j = ws_end(s, i);
    if j < i || j > s.len() {
        Outcome::Mismatch
    } else if word_at(s, j) is Some && word_at(s, j)->Some_0.0 == ValueModel::Null {
        Outcome::Success(ValueModel::Null, j + 4)
    } else if j < s.len() && s[j] == '{' {
        match pairs_at(s, j + 1) {
            Outcome::Success(p, e) => Outcome::Success(ValueModel::Object(object_of(p)), e),
            Outcome::Overflow => Outcome::Overflow,
            _ => Outcome::Failure,
        }
    } else if j < s.len() && s[j] == '[' {
        match items_at(s, j + 1, seq![']']) {
            Outcome::Success(v, e) => Outcome::Success(ValueModel::Array(v), e),
            Outcome::Overflow => Outcome::Overflow,
            _ => Outcome::Failure,
        }
    } else if tag_at(s, j, seq!['<', '<']) {
        match items_at(s, j + 2, seq!['>', '>']) {
            Outcome::Success(v, e) => Outcome::Success(ValueModel::Array(v), e),
            Outcome::Overflow => Outcome::Overflow,
            _ => Outcome::Failure,
        }
    } else if j < s.len() && (s[j] == '"' || s[j] == '\'') {
        match string_at(s, j) {
            Outcome::Success(t, e) => Outcome::Success(ValueModel::Str(t), e),
            _ => Outcome::Failure,
        }
    } else {
        match float_at(s, j) {
            Outcome::Success(f, e) => Outcome::Success(ValueModel::Float(f), e),
            Outcome::Overflow => Outcome::Overflow,
            _ => match integer_at(s, j) {
                Outcome::Success(n, e) => Outcome::Success(ValueModel::Int(n), e),
                Outcome::Overflow => Outcome::Overflow,
                _ => match word_at(s, j) {
                    Some((v, n)) => Outcome::Success(v, j + n),
                    None => Outcome::Mismatch,
                },
            },
        }
    }
}

/// After the elements: optional multispace and `close`.
pub open spec fn close_at(s: Seq<char>, k: int, close: Seq<char>) -> Outcome<Seq<ValueModel>> {
    let j = ws_end(s, k);
    if tag_at(s, j, close) {
        Outcome::Success(Seq::empty(), j + close.len())
    } else {
        Outcome::Failure
    }
}

/// The elements of an array or bag, separated by `,` (with optional
/// multispace before it), then `close`.
pub open spec fn items_at(s: Seq<char>, i: int, close: Seq<char>) -> Outcome<Seq<ValueModel>>
    decreases s.len() - i, 1int,
{
    if i < 0 || i > s.len() {
        Outcome::Failure
    } else {
        match value_at(s, i) {
            Outcome::Mismatch => close_at(s, i, close),
            Outcome::Success(v, k) => {
                if k <= i || k > s.len() {
                    Outcome::Failure
                } else {
                    match more_items_at(s, k, close) {
                        Outcome::Success(vs, e) => Outcome::Success(seq![v] + vs, e),
                        other => other,
                    }
                }
            },
            Outcome::Failure => Outcome::Failure,
            Outcome::Overflow => Outcome::Overflow,
        }
    }
}

/// The elements after one that ends at `k`.
pub open spec fn more_items_at(s: Seq<char>, k: int, close: Seq<char>) -> Outcome<
    Seq<ValueModel>,
>
    decreases s.len() - k, 0int,
{
    let j = ws_end(s, k);
    if 0 <= k <= j < s.len() && s[j] == ',' {
        match value_at(s, j + 1) {
            Outcome::Mismatch => close_at(s, k, close),
            Outcome::Success(v, k2) => {
                if k2 <= k || k2 > s.len() {
                    Outcome::Failure
                } else {
                    match more_items_at(s, k2, close) {
                        Outcome::Success(vs, e) => Outcome::Success(seq![v] + vs, e),
                        other => other,
                    }
                }
            },
            Outcome::Failure => Outcome::Failure,
            Outcome::Overflow => Outcome::Overflow,
        }
    } else {
        close_at(s, k, close)
    }
}

/// A key-value pair: optional multispace, a string, optional multispace,
/// `:`, a value.
pub open spec fn pair_at(s: Seq<char>, i: int) -> Outcome<(Seq<char>, ValueModel)>
    decreases s.len() - i, 2int,
{
    let j = ws_end(s, i);
    match string_at(s, j) {
        Outcome::Success(key, e) => {
            let c = ws_end(s, e);
            if i < j + 1 <= e <= c < s.len() && s[c] == ':' {
                match value_at(s, c + 1) {
                    Outcome::Success(v, e2) => Outcome::Success((key, v), e2),
                    Outcome::Mismatch => Outcome::Mismatch,
                    Outcome::Failure => Outcome::Failure,
                    Outcome::Overflow => Outcome::Overflow,
                }
            } else {
                Outcome::Failure
            }
        },
        Outcome::Mismatch => Outcome::Mismatch,
        _ => Outcome::Failure,
    }
}

/// After the pairs: optional multispace and `}`.
pub open spec fn close_pairs_at(s: Seq<char>, k: int) -> Outcome<
    Seq<(Seq<char>, ValueModel)>,
> {
    let j = ws_end(s, k);
    if 0 <= j < s.len() && s[j] == '}' {
        Outcome::Success(Seq::empty(), j + 1)
    } else {
        Outcome::Failure
    }
}

/// The pairs of an object, separated by `,`, then `}`.
pub open spec fn pairs_at(s: Seq<char>, i: int) -> Outcome<Seq<(Seq<char>, ValueModel)>>
    decreases s.len() - i, 3int,
{
    if i < 0 || i > s.len() {
        Outcome::Failure
    } else {
        match pair_at(s, i) {
            Outcome::Mismatch => close_pairs_at(s, i),
            Outcome::Success(p, k) => {
                if k <= i || k > s.len() {
                    Outcome::Failure
                } else {
                    match more_pairs_at(s, k) {
                        Outcome::Success(ps, e) => Outcome::Success(seq![p] + ps, e),
                        other => other,
                    }
                }
            },
            Outcome::Failure => Outcome::Failure,
            Outcome::Overflow => Outcome::Overflow,
        }
    }
}

/// The pairs after one that ends at `k`.
pub open spec fn more_pairs_at(s: Seq<char>, k: int) -> Outcome<Seq<(Seq<char>, ValueModel)>>
    decreases s.len() - k, 1int,
{
    let j = ws_end(s, k);
    if 0 <= k <= j < s.len() && s[j] == ',' {
        match pair_at(s, j + 1) {
            Outcome::Mismatch => close_pairs_at(s, k),
            Outcome::Success(p, k2) => {
                if k2 <= k || k2 > s.len() {
                    Outcome::Failure
                } else {
                    match more_pairs_at(s, k2) {
                        Outcome::Success(ps, e) => Outcome::Success(seq![p] + ps, e),
                        other => other,
                    }
                }
            },
            Outcome::Failure => Outcome::Failure,
            Outcome::Overflow => Outcome::Overflow,
        }
    } else {
        close_pairs_at(s, k)
    }
}


/// The model of an executable value outcome.
pub open spec fn value_outcome(r: Parsed<PqlValue>) -> Outcome<ValueModel> {
    match r {
        Parsed::Success(v, e) => Outcome::Success(v@, e as int),
        Parsed::Mismatch => Outcome::Mismatch,
        Parsed::Failure => Outcome::Failure,
        Parsed::Overflow => Outcome::Overflow,
    }
}

/// The model of an executable list outcome.
pub open spec fn values_outcome(r: Parsed<Vec<PqlValue>>) -> Outcome<Seq<ValueModel>> {
    match r {
        Parsed::Success(v, e) => Outcome::Success(models(v@), e as int),
        Parsed::Mismatch => Outcome::Mismatch,
        Parsed::Failure => Outcome::Failure,
        Parsed::Overflow => Outcome::Overflow,
    }
}

/// The model of an executable pair outcome.
pub open spec fn pair_outcome(r: Parsed<(String, PqlValue)>) -> Outcome<(Seq<char>, ValueModel)> {
    match r {
        Parsed::Success(p, e) => Outcome::Success((p.0@, p.1@), e as int),
        Parsed::Mismatch => Outcome::Mismatch,
        Parsed::Failure => Outcome::Failure,
        Parsed::Overflow => Outcome::Overflow,
    }
}

/// The model of an executable pairs outcome.
pub open spec fn pairs_outcome(r: Parsed<Vec<(String, PqlValue)>>) -> Outcome<
    Seq<(Seq<char>, ValueModel)>,
> {
    match r {
        Parsed::Success(p, e) => Outcome::Success(entries_model(p@), e as int),
        Parsed::Mismatch => Outcome::Mismatch,
        Parsed::Failure => Outcome::Failure,
        Parsed::Overflow => Outcome::Overflow,
    }
}

/// `acc` put before the results of an outcome.
pub open spec fn prepend<T>(acc: Seq<T>, o: Outcome<Seq<T>>) -> Outcome<Seq<T>> {
    match o {
        Outcome::Success(vs, e) => Outcome::Success(acc + vs, e),
        other => other,
    }
}

fn escaped_exec(s: &Vec<char>, i: usize) -> (r: Option<usize>)
    requires
        i <= s@.len(),
    ensures
        match r {
            Some(e) => escaped_from(s@, i as int, i as int) == Some(e as int) && i <= e <= s@.len(),
            None => escaped_from(s@, i as int, i as int) is None,
        },
{
    let mut j = i;
    while j < s.len()
        invariant
            i <= j <= s@.len(),
            escaped_from(s@, i as int, i as int) == escaped_from(s@, i as int, j as int),
        decreases s@.len() - j,
    {
        let c = s[j];
        if ('0' <= c && c <= '9') || ('a' <= c && c <= 'z') || ('A' <= c && c <= 'Z') || c == ' '
            || c == '\t' {
            j = j + 1;
        } else if c == '\\' {
            if j + 1 >= s.len() {
                return None;
            }
            let d = s[j + 1];
            if d == '"' || d == 'n' || d == '\\' {
                j = j + 2;
            } else {
                return None;
            }
        } else if j == i {
            return None;
        } else {
            return Some(j);
        }
    }
    Some(s.len())
}

pub(crate) fn string_exec(s: &Vec<char>, i: usize) -> (r: Parsed<String>)
    requires
        i <= s@.len(),
    ensures
        match r {
            Parsed::Success(t, e) => string_at(s@, i as int) == Outcome::Success(t@, e as int) && i
                < e <= s@.len(),
            Parsed::Mismatch => string_at(s@, i as int) == Outcome::<Seq<char>>::Mismatch,
            Parsed::Failure => string_at(s@, i as int) == Outcome::<Seq<char>>::Failure,
            Parsed::Overflow => false,
        },
{
    if i < s.len() && (s[i] == '"' || s[i] == '\'') {
        match escaped_exec(s, i + 1) {
            Some(e) => {
                if e < s.len() && s[e] == s[i] {
                    let body = vstd::slice::slice_subrange(s.as_slice(), i + 1, e);
                    Parsed::Success(string_from_chars(body), e + 1)
                } else {
                    Parsed::Failure
                }
            },
            None => Parsed::Failure,
        }
    } else {
        Parsed::Mismatch
    }
}

fn word_exec(s: &Vec<char>, i: usize) -> (r: Option<(PqlValue, usize)>)
    requires
        i <= s@.len(),
    ensures
        match r {
            Some((v, n)) => word_at(s@, i as int) == Some((v@, n as int)) && 4 <= n <= 5 && i + n
                <= s.len(),
            None => word_at(s@, i as int) is None,
        },
{
    broadcast use lemma_view_unfold;

    if tag_at_exec(s, i, "null") || tag_at_exec(s, i, "NULL") {
        proof {
            reveal_strlit("null");
            reveal_strlit("NULL");
        }
        assert("null"@ =~= seq!['n', 'u', 'l', 'l']);
        assert("NULL"@ =~= seq!['N', 'U', 'L', 'L']);
        Some((PqlValue::Null, 4))
    } else if tag_at_exec(s, i, "true") {
        proof {
            reveal_strlit("null");
            reveal_strlit("NULL");
            reveal_strlit("true");
        }
        assert("null"@ =~= seq!['n', 'u', 'l', 'l']);
        assert("NULL"@ =~= seq!['N', 'U', 'L', 'L']);
        assert("true"@ =~= seq!['t', 'r', 'u', 'e']);
        Some((PqlValue::Boolean(true), 4))
    } else if tag_at_exec(s, i, "false") {
        proof {
            reveal_strlit("null");
            reveal_strlit("NULL");
            reveal_strlit("true");
            reveal_strlit("false");
        }
        assert("null"@ =~= seq!['n', 'u', 'l', 'l']);
        assert("NULL"@ =~= seq!['N', 'U', 'L', 'L']);
        assert("true"@ =~= seq!['t', 'r', 'u', 'e']);
        assert("false"@ =~= seq!['f', 'a', 'l', 's', 'e']);
        Some((PqlValue::Boolean(false), 5))
    } else {
        proof {
            reveal_strlit("null");
            reveal_strlit("NULL");
            reveal_strlit("true");
            reveal_strlit("false");
        }
        assert("null"@ =~= seq!['n', 'u', 'l', 'l']);
        assert("NULL"@ =~= seq!['N', 'U', 'L', 'L']);
        assert("true"@ =~= seq!['t', 'r', 'u', 'e']);
        assert("false"@ =~= seq!['f', 'a', 'l', 's', 'e']);
        None
    }
}


/// The object of key-value pairs (see `object_of`).
pub fn object_from_pairs(pairs: Vec<(String, PqlValue)>) -> (r: PqlObject)
    ensures
        r@ == object_of(entries_model(pairs@)),
{
    let ghost pm = entries_model(pairs@);
    let mut obj = PqlObject::new();
    assert(object_of(pm.take(0)) =~= Seq::<(Seq<char>, ValueModel)>::empty());
    for pair in it: pairs
        invariant
            pm == entries_model(it.seq()),
            obj@ == object_of(pm.take(it.index() as int)),
    {
        let (key, value) = pair;
        proof {
            let k = it.index() as int;
            assert(pm.take(k + 1).drop_last() =~= pm.take(k));
            assert(pm.take(k + 1).last() == pm[k]);
        }
        obj.insert(key, value);
    }
    assert(pm.take(pm.len() as int) =~= pm);
    obj
}

/// Parses a value at `i` (see `value_at`).
pub fn value_exec(s: &Vec<char>, i: usize) -> (r: Parsed<PqlValue>)
    requires
        i <= s@.len(),
    ensures
        value_outcome(r) == value_at(s@, i as int),
        r matches Parsed::Success(_, e) ==> i < e <= s@.len(),
    decreases s@.len() - i, 0int,
{
    broadcast use lemma_view_unfold;

    let j = ws_end_exec(s, i);
    proof {
        lemma_ws_end(s@, i as int);
        reveal_strlit("<<");
        reveal_strlit("]");
        reveal_strlit(">>");
    }
    assert("]"@ =~= seq![']']);
    assert(">>"@ =~= seq!['>', '>']);
    let w = word_exec(s, j);
    match &w {
        Some((PqlValue::Null, n)) => {
            return Parsed::Success(PqlValue::Null, j + *n);
        },
        _ => {},
    }
    if j < s.len() && s[j] == '{' {
        return match pairs_exec(s, j + 1) {
            Parsed::Success(p, e) => Parsed::Success(PqlValue::Object(object_from_pairs(p)), e),
            Parsed::Overflow => Parsed::Overflow,
            _ => Parsed::Failure,
        };
    }
    if j < s.len() && s[j] == '[' {
        return match items_exec(s, j + 1, "]") {
            Parsed::Success(v, e) => Parsed::Success(PqlValue::Array(v), e),
            Parsed::Overflow => Parsed::Overflow,
            _ => Parsed::Failure,
        };
    }
    if tag_at_exec(s, j, "<<") {
        proof {
            reveal_strlit("<<");
        }
        assert("<<"@ =~= seq!['<', '<']);
        return match items_exec(s, j + 2, ">>") {
            Parsed::Success(v, e) => Parsed::Success(PqlValue::Array(v), e),
            Parsed::Overflow => Parsed::Overflow,
            _ => Parsed::Failure,
        };
    }
    proof {
        reveal_strlit("<<");
        reveal_strlit("]");
        reveal_strlit(">>");
    }
    assert("<<"@ =~= seq!['<', '<']);
    if j < s.len() && (s[j] == '"' || s[j] == '\'') {
        return match string_exec(s, j) {
            Parsed::Success(t, e) => Parsed::Success(PqlValue::Str(t), e),
            _ => Parsed::Failure,
        };
    }
    match float_exec(s, j) {
        Parsed::Success(f, e) => {
            return Parsed::Success(PqlValue::Float(f), e);
        },
        Parsed::Overflow => {
            return Parsed::Overflow;
        },
        _ => {},
    }
    match integer_exec(s, j) {
        Parsed::Success(n, e) => {
            return Parsed::Success(PqlValue::Int(n), e);
        },
        Parsed::Overflow => {
            return Parsed::Overflow;
        },
        _ => {},
    }
    match w {
        Some((v, n)) => Parsed::Success(v, j + n),
        None => Parsed::Mismatch,
    }
}

fn close_exec(s: &Vec<char>, k: usize, close: &str) -> (r: Parsed<Vec<PqlValue>>)
    requires
        k <= s@.len(),
        close@.len() > 0,
    ensures
        values_outcome(r) == close_at(s@, k as int, close@),
        r matches Parsed::Success(_, e) ==> k < e <= s@.len(),
{
    let j = ws_end_exec(s, k);
    proof {
        lemma_ws_end(s@, k as int);
    }
    if tag_at_exec(s, j, close) {
        let v: Vec<PqlValue> = Vec::new();
        assert(models(v@) =~= Seq::<ValueModel>::empty());
        let cl = close.unicode_len();
        assert(j + cl <= s.len());
        let e = j + cl;
        Parsed::Success(v, e)
    } else {
        Parsed::Failure
    }
}

/// Parses the elements of an array or bag at `i` (see `items_at`).
pub fn items_exec(s: &Vec<char>, i: usize, close: &str) -> (r: Parsed<Vec<PqlValue>>)
    requires
        i <= s@.len(),
        close@.len() > 0,
    ensures
        values_outcome(r) == items_at(s@, i as int, close@),
        r matches Parsed::Success(_, e) ==> i < e <= s@.len(),
    decreases s@.len() - i, 1int,
{
    let first = value_exec(s, i);
    let (v, k) = match first {
        Parsed::Mismatch => {
            return close_exec(s, i, close);
        },
        Parsed::Failure => {
            return Parsed::Failure;
        },
        Parsed::Overflow => {
            return Parsed::Overflow;
        },
        Parsed::Success(v, k) => (v, k),
    };
    let mut acc: Vec<PqlValue> = Vec::new();
    acc.push(v);
    let mut k = k;
    assert(models(acc@) =~= seq![v@]);
    loop
        invariant
            i < k <= s@.len(),
            close@.len() > 0,
            items_at(s@, i as int, close@) == prepend(
                models(acc@),
                more_items_at(s@, k as int, close@),
            ),
        decreases s@.len() - k,
    {
        let j = ws_end_exec(s, k);
        if j < s.len() && s[j] == ',' {
            match value_exec(s, j + 1) {
                Parsed::Mismatch => {
                    return match close_exec(s, k, close) {
                        Parsed::Success(_, e) => Parsed::Success(acc, e),
                        other => other,
                    };
                },
                Parsed::Failure => {
                    return Parsed::Failure;
                },
                Parsed::Overflow => {
                    return Parsed::Overflow;
                },
                Parsed::Success(v2, k2) => {
                    let ghost before = models(acc@);
                    acc.push(v2);
                    assert(models(acc@) =~= before + seq![v2@]);
                    proof {
                        let rest = more_items_at(s@, k2 as int, close@);
                        match rest {
                            Outcome::Success(vs, e) => {
                                assert(before + (seq![v2@] + vs) =~= (before + seq![v2@]) + vs);
                            },
                            _ => {},
                        }
                    }
                    k = k2;
                },
            }
        } else {
            return match close_exec(s, k, close) {
                Parsed::Success(_, e) => {
                    assert(models(acc@) + Seq::<ValueModel>::empty() =~= models(acc@));
                    Parsed::Success(acc, e)
                },
                other => other,
            };
        }
    }
}

/// Parses a key-value pair at `i` (see `pair_at`).
pub fn pair_exec(s: &Vec<char>, i: usize) -> (r: Parsed<(String, PqlValue)>)
    requires
        i <= s@.len(),
    ensures
        pair_outcome(r) == pair_at(s@, i as int),
        r matches Parsed::Success(_, e) ==> i < e <= s@.len(),
    decreases s@.len() - i, 2int,
{
    let j = ws_end_exec(s, i);
    proof {
        lemma_ws_end(s@, i as int);
    }
    match string_exec(s, j) {
        Parsed::Success(key, e) => {
            let c = ws_end_exec(s, e);
            if c < s.len() && s[c] == ':' {
                match value_exec(s, c + 1) {
                    Parsed::Success(v, e2) => Parsed::Success((key, v), e2),
                    Parsed::Mismatch => Parsed::Mismatch,
                    Parsed::Failure => Parsed::Failure,
                    Parsed::Overflow => Parsed::Overflow,
                }
            } else {
                Parsed::Failure
            }
        },
        Parsed::Mismatch => Parsed::Mismatch,
        _ => Parsed::Failure,
    }
}

fn close_pairs_exec(s: &Vec<char>, k: usize) -> (r: Parsed<Vec<(String, PqlValue)>>)
    requires
        k <= s@.len(),
    ensures
        pairs_outcome(r) == close_pairs_at(s@, k as int),
        r matches Parsed::Success(_, e) ==> k < e <= s@.len(),
{
    let j = ws_end_exec(s, k);
    if j < s.len() && s[j] == '}' {
        let v: Vec<(String, PqlValue)> = Vec::new();
        assert(entries_model(v@) =~= Seq::<(Seq<char>, ValueModel)>::empty());
        Parsed::Success(v, j + 1)
    } else {
        Parsed::Failure
    }
}

/// Parses the pairs of an object at `i` (see `pairs_at`).
pub fn pairs_exec(s: &Vec<char>, i: usize) -> (r: Parsed<Vec<(String, PqlValue)>>)
    requires
        i <= s@.len(),
    ensures
        pairs_outcome(r) == pairs_at(s@, i as int),
        r matches Parsed::Success(_, e) ==> i < e <= s@.len(),
    decreases s@.len() - i, 3int,
{
    let first = pair_exec(s, i);
    let (p, k) = match first {
        Parsed::Mismatch => {
            return close_pairs_exec(s, i);
        },
        Parsed::Failure => {
            return Parsed::Failure;
        },
        Parsed::Overflow => {
            return Parsed::Overflow;
        },
        Parsed::Success(p, k) => (p, k),
    };
    let ghost pm = (p.0@, p.1@);
    let mut acc: Vec<(String, PqlValue)> = Vec::new();
    acc.push(p);
    let mut k = k;
    assert(entries_model(acc@) =~= seq![pm]);
    loop
        invariant
            i < k <= s@.len(),
            pairs_at(s@, i as int) == prepend(entries_model(acc@), more_pairs_at(s@, k as int)),
        decreases s@.len() - k,
    {
        let j = ws_end_exec(s, k);
        if j < s.len() && s[j] == ',' {
            match pair_exec(s, j + 1) {
                Parsed::Mismatch => {
                    return match close_pairs_exec(s, k) {
                        Parsed::Success(_, e) => Parsed::Success(acc, e),
                        other => other,
                    };
                },
                Parsed::Failure => {
                    return Parsed::Failure;
                },
                Parsed::Overflow => {
                    return Parsed::Overflow;
                },
                Parsed::Success(p2, k2) => {
                    let ghost before = entries_model(acc@);
                    let ghost p2m = (p2.0@, p2.1@);
                    acc.push(p2);
                    assert(entries_model(acc@) =~= before + seq![p2m]);
                    proof {
                        let rest = more_pairs_at(s@, k2 as int);
                        match rest {
                            Outcome::Success(ps, e) => {
                                assert(before + (seq![p2m] + ps) =~= (before + seq![p2m]) + ps);
                            },
                            _ => {},
                        }
                    }
                    k = k2;
                },
            }
        } else {
            return match close_pairs_exec(s, k) {
                Parsed::Success(_, e) => {
                    assert(entries_model(acc@) + Seq::<(Seq<char>, ValueModel)>::empty()
                        =~= entries_model(acc@));
                    Parsed::Success(acc, e)
                },
                other => other,
            };
        }
    }
}


/// Why a text is not a PartiQL value.
#[derive(Debug, Clone, PartialEq, Eq)]
pub enum PqlError {
    /// The text does not start with a value.
    Syntax,
    /// An integer, or the exponent of a float, does not fit.
    Overflow,
    /// The pattern for comments is refused by the regex engine.
    Pattern,
}

/// The pattern of a comment: `--`, then word characters, whitespace, `.`,
/// `{` or `}`, up to and including the first line feed.
pub const COMMENT_PATTERN: &'static str = "--[\\w\\s\\.{}]*?\\n";

/// The value at the start of a text (after multispace); what follows it is
/// not looked at.
pub open spec fn root_spec(s: Seq<char>) -> Result<ValueModel, PqlError> {
    match value_at(s, 0) {
        Outcome::Success(v, _) => Ok(v),
        Outcome::Overflow => Err(PqlError::Overflow),
        _ => Err(PqlError::Syntax),
    }
}

/// The value of a text after its comments are removed.
pub open spec fn pql_value_spec(input: Seq<char>) -> Result<ValueModel, PqlError> {
    if regex_valid(COMMENT_PATTERN@) {
        root_spec(regex_replaced(COMMENT_PATTERN@, input, Seq::empty()))
    } else {
        Err(PqlError::Pattern)
    }
}

/// The model of a parse result.
pub open spec fn result_model(r: Result<PqlValue, PqlError>) -> Result<ValueModel, PqlError> {
    match r {
        Ok(v) => Ok(v@),
        Err(e) => Err(e),
    }
}

/// Parses the value at the start of `input` (see `root_spec`).
pub fn root(input: &str) -> (r: Result<PqlValue, PqlError>)
    ensures
        result_model(r) == root_spec(input@),
{
    let s = chars_of(input);
    match value_exec(&s, 0) {
        Parsed::Success(v, _) => Ok(v),
        Parsed::Overflow => Err(PqlError::Overflow),
        _ => Err(PqlError::Syntax),
    }
}

/// Parses a PartiQL value: comments are removed, then the value at the
/// start of the text is read (see `pql_value_spec`).
pub fn pql_value(input: &str) -> (r: Result<PqlValue, PqlError>)
    ensures
        result_model(r) == pql_value_spec(input@),
{
    proof {
        reveal_strlit("");
    }
    match regex_replace_all(COMMENT_PATTERN, input, "") {
        Some(text) => {
            assert(""@ =~= Seq::<char>::empty());
            root(text.as_str())
        },
        None => Err(PqlError::Pattern),
    }
}

/// Parses a PartiQL value (see `pql_value`).
pub fn from_str(input: &str) -> (r: Result<PqlValue, PqlError>)
    ensures
        result_model(r) == pql_value_spec(input@),
{
    pql_value(input)
}

} // verus!
