//! Evaluating expressions in an environment, and expanding their paths.
//!
//! Integer arithmetic is exact and checked. Arithmetic that would need
//! floating point (division, remainder, powers, or any float operand) is
//! reported as unsupported.
use vstd::prelude::*;

use crate::sql::env::{eval_spec, expansion, found_model, Env, EnvModel};
use crate::sql::expr::{lemma_expr_unfold, Expr, ExprModel, Func};
use crate::sql::field::{Field, Proj};
use crate::sql::selector::{join_dot, texts, NodeModel};
use crate::text::{str_to_uppercase, uppercase_of};
use crate::value::{lemma_view_unfold, models, PqlValue, ValueModel};

verus! {

broadcast use {lemma_expr_unfold, lemma_view_unfold};

/// Why an expression has no value.
#[derive(Debug, Clone, Copy, PartialEq, Eq)]
pub enum EvalError {
    /// The expression needs what this library does not compute: `*`, a
    /// subquery, or floating-point arithmetic.
    Unsupported,
    /// An integer result does not fit in 64 bits.
    Overflow,
    /// An operand is not a number.
    TypeMismatch,
    /// A path does not evaluate (a circle of aliases, a negative index).
    Unresolved,
    /// `COUNT` was applied to something other than an array of arrays.
    NotAnArray,
}

/// The arithmetic operators.
#[derive(Debug, Clone, Copy, PartialEq, Eq)]
pub enum ArithOp {
    Add,
    Sub,
    Mul,
    Div,
    Rem,
    Exp,
}

/// Whether a value is a number.
pub open spec fn is_number(v: ValueModel) -> bool {
    v is Int || v is Float
}

/// An integer result, if it fits in 64 bits.
pub open spec fn int_result(x: int) -> Result<ValueModel, EvalError> {
    if i64::MIN <= x <= i64::MAX {
        Ok(ValueModel::Int(x as i64))
    } else {
        Err(EvalError::Overflow)
    }
}

/// `a op b`: exact for `+`, `-`, `*` on integers; unsupported for other
/// numbers; a type mismatch otherwise.
pub open spec fn arith_spec(op: ArithOp, a: ValueModel, b: ValueModel) -> Result<
    ValueModel,
    EvalError,
> {
    match (a, b) {
        (ValueModel::Int(x), ValueModel::Int(y)) => match op {
            ArithOp::Add => int_result(x + y),
            ArithOp::Sub => int_result(x - y),
            ArithOp::Mul => int_result(x * y),
            _ => Err(EvalError::Unsupported),
        },
        _ => if is_number(a) && is_number(b) {
            Err(EvalError::Unsupported)
        } else {
            Err(EvalError::TypeMismatch)
        },
    }
}

/// A value in upper case: strings are upper-cased, arrays element by
/// element, and other values stay as they are.
pub open spec fn upper_spec(v: ValueModel) -> ValueModel
    decreases v,
{
    match v {
        ValueModel::Array(a) => ValueModel::Array(
            Seq::new(
                a.len(),
                |i: int|
                    if 0 <= i < a.len() {
                        upper_spec(a[i])
                    } else {
                        ValueModel::Null
                    },
            ),
        ),
        ValueModel::Str(s) => ValueModel::Str(uppercase_of(s)),
        _ => v,
    }
}

/// The lengths of the arrays in `a`, as integers; an error at the first
/// element that is not an array.
pub open spec fn count_each(a: Seq<ValueModel>) -> Result<Seq<ValueModel>, EvalError>
    decreases a.len(),
{
    if a.len() == 0 {
        Ok(Seq::empty())
    } else {
        match count_each(a.drop_last()) {
            Err(e) => Err(e),
            Ok(r) => match a.last() {
                ValueModel::Array(x) => if x.len() <= i64::MAX {
                    Ok(r.push(ValueModel::Int(x.len() as i64)))
                } else {
                    Err(EvalError::Overflow)
                },
                _ => Err(EvalError::NotAnArray),
            },
        }
    }
}

/// The value of `e` in `m`. A path is evaluated (see `eval_spec`), giving
/// null when it finds nothing; operands are evaluated left to right, and the
/// first error stands.
pub open spec fn expr_eval(e: ExprModel, m: EnvModel) -> Result<ValueModel, EvalError>
    decreases e,
{
    match e {
        ExprModel::Star => Err(EvalError::Unsupported),
        ExprModel::Sql(_) => Err(EvalError::Unsupported),
        ExprModel::Value(v) => Ok(v),
        ExprModel::Selector(s) => match eval_spec(m, s, (m.len() + 2) as nat) {
            Some(Some(x)) => Ok(x),
            Some(None) => Ok(ValueModel::Null),
            None => Err(EvalError::Unresolved),
        },
        ExprModel::Count(x) => match expr_eval(*x, m) {
            Ok(ValueModel::Array(a)) => match count_each(a) {
                Ok(r) => Ok(ValueModel::Array(r)),
                Err(err) => Err(err),
            },
            Ok(_) => Err(EvalError::NotAnArray),
            Err(err) => Err(err),
        },
        ExprModel::Upper(x) => match expr_eval(*x, m) {
            Ok(v) => Ok(upper_spec(v)),
            Err(err) => Err(err),
        },
        ExprModel::Add(a, b) => eval_binary(ArithOp::Add, expr_eval(*a, m), expr_eval(*b, m)),
        ExprModel::Sub(a, b) => eval_binary(ArithOp::Sub, expr_eval(*a, m), expr_eval(*b, m)),
        ExprModel::Mul(a, b) => eval_binary(ArithOp::Mul, expr_eval(*a, m), expr_eval(*b, m)),
        ExprModel::Div(a, b) => eval_binary(ArithOp::Div, expr_eval(*a, m), expr_eval(*b, m)),
        ExprModel::Rem(a, b) => eval_binary(ArithOp::Rem, expr_eval(*a, m), expr_eval(*b, m)),
        ExprModel::Exp(a, b) => eval_binary(ArithOp::Exp, expr_eval(*a, m), expr_eval(*b, m)),
    }
}

/// Combines the values of two operands; the first error stands.
pub open spec fn eval_binary(
    op: ArithOp,
    a: Result<ValueModel, EvalError>,
    b: Result<ValueModel, EvalError>,
) -> Result<ValueModel, EvalError> {
    match a {
        Err(e) => Err(e),
        Ok(x) => match b {
            Err(e) => Err(e),
            Ok(y) => arith_spec(op, x, y),
        },
    }
}

/// The expression with its paths expanded to full paths; `None` where the
/// expression holds `*`, a function or a subquery, or a path runs through a
/// circle of aliases.
pub open spec fn expr_expand(e: ExprModel, m: EnvModel) -> Option<ExprModel>
    decreases e,
{
    match e {
        ExprModel::Selector(s) => match expansion(m, s) {
            Some(p) => Some(ExprModel::Selector(p)),
            None => None,
        },
        ExprModel::Value(_) => Some(e),
        ExprModel::Add(a, b) => match (expr_expand(*a, m), expr_expand(*b, m)) {
            (Some(x), Some(y)) => Some(ExprModel::Add(Box::new(x), Box::new(y))),
            _ => None,
        },
        ExprModel::Sub(a, b) => match (expr_expand(*a, m), expr_expand(*b, m)) {
            (Some(x), Some(y)) => Some(ExprModel::Sub(Box::new(x), Box::new(y))),
            _ => None,
        },
        ExprModel::Mul(a, b) => match (expr_expand(*a, m), expr_expand(*b, m)) {
            (Some(x), Some(y)) => Some(ExprModel::Mul(Box::new(x), Box::new(y))),
            _ => None,
        },
        ExprModel::Div(a, b) => match (expr_expand(*a, m), expr_expand(*b, m)) {
            (Some(x), Some(y)) => Some(ExprModel::Div(Box::new(x), Box::new(y))),
            _ => None,
        },
        ExprModel::Rem(a, b) => match (expr_expand(*a, m), expr_expand(*b, m)) {
            (Some(x), Some(y)) => Some(ExprModel::Rem(Box::new(x), Box::new(y))),
            _ => None,
        },
        ExprModel::Exp(a, b) => match (expr_expand(*a, m), expr_expand(*b, m)) {
            (Some(x), Some(y)) => Some(ExprModel::Exp(Box::new(x), Box::new(y))),
            _ => None,
        },
        _ => None,
    }
}

/// The model of an evaluation outcome.
pub open spec fn eval_model(r: Result<PqlValue, EvalError>) -> Result<ValueModel, EvalError> {
    match r {
        Ok(v) => Ok(v@),
        Err(e) => Err(e),
    }
}

/// Integer `+`, `-` and `*` are the arithmetic of integers: where the exact
/// result fits in 64 bits it is returned (a sum less either operand gives
/// the other, a difference plus the subtrahend gives the minuend, a product
/// is the product), and otherwise the result overflows. Sums and products
/// do not depend on the order of the operands, and `x - y` is the negation
/// of `y - x`.
pub proof fn lemma_int_arith(x: i64, y: i64)
    ensures
        i64::MIN <= x + y <= i64::MAX ==> (arith_spec(
            ArithOp::Add,
            ValueModel::Int(x),
            ValueModel::Int(y),
        ) matches Ok(ValueModel::Int(z)) && z - y == x && z - x == y),
        i64::MIN <= x - y <= i64::MAX ==> (arith_spec(
            ArithOp::Sub,
            ValueModel::Int(x),
            ValueModel::Int(y),
        ) matches Ok(ValueModel::Int(z)) && z + y == x),
        i64::MIN <= x * y <= i64::MAX ==> (arith_spec(
            ArithOp::Mul,
            ValueModel::Int(x),
            ValueModel::Int(y),
        ) matches Ok(ValueModel::Int(z)) && z == x * y),
        !(i64::MIN <= x + y <= i64::MAX) ==> arith_spec(
            ArithOp::Add,
            ValueModel::Int(x),
            ValueModel::Int(y),
        ) == Err::<ValueModel, EvalError>(EvalError::Overflow),
        !(i64::MIN <= x - y <= i64::MAX) ==> arith_spec(
            ArithOp::Sub,
            ValueModel::Int(x),
            ValueModel::Int(y),
        ) == Err::<ValueModel, EvalError>(EvalError::Overflow),
        !(i64::MIN <= x * y <= i64::MAX) ==> arith_spec(
            ArithOp::Mul,
            ValueModel::Int(x),
            ValueModel::Int(y),
        ) == Err::<ValueModel, EvalError>(EvalError::Overflow),
        arith_spec(ArithOp::Add, ValueModel::Int(x), ValueModel::Int(y)) == arith_spec(
            ArithOp::Add,
            ValueModel::Int(y),
            ValueModel::Int(x),
        ),
        arith_spec(ArithOp::Mul, ValueModel::Int(x), ValueModel::Int(y)) == arith_spec(
            ArithOp::Mul,
            ValueModel::Int(y),
            ValueModel::Int(x),
        ),
        (i64::MIN <= x - y <= i64::MAX && i64::MIN <= y - x <= i64::MAX) ==> (arith_spec(
            ArithOp::Sub,
            ValueModel::Int(x),
            ValueModel::Int(y),
        ) matches Ok(ValueModel::Int(d)) && arith_spec(
            ArithOp::Sub,
            ValueModel::Int(y),
            ValueModel::Int(x),
        ) matches Ok(ValueModel::Int(e)) && d == -e),
{
    assert(x * y == y * x) by (nonlinear_arith);
}

/// `a op b` (see `arith_spec`).
pub fn arith(op: ArithOp, a: &PqlValue, b: &PqlValue) -> (r: Result<PqlValue, EvalError>)
    ensures
        eval_model(r) == arith_spec(op, a@, b@),
{
    match (a, b) {
        (PqlValue::Int(x), PqlValue::Int(y)) => {
            let z = match op {
                ArithOp::Add => x.checked_add(*y),
                ArithOp::Sub => x.checked_sub(*y),
                ArithOp::Mul => x.checked_mul(*y),
                _ => {
                    return Err(EvalError::Unsupported);
                },
            };
            match z {
                Some(v) => Ok(PqlValue::Int(v)),
                None => Err(EvalError::Overflow),
            }
        },
        _ => {
            let na = matches!(a, PqlValue::Int(_)) || matches!(a, PqlValue::Float(_));
            let nb = matches!(b, PqlValue::Int(_)) || matches!(b, PqlValue::Float(_));
            if na && nb {
                Err(EvalError::Unsupported)
            } else {
                Err(EvalError::TypeMismatch)
            }
        },
    }
}

impl PqlValue {
    /// The value in upper case (see `upper_spec`).
    pub fn to_uppercase(self) -> (r: PqlValue)
        ensures
            r@ == upper_spec(self@),
        decreases self@,
    {
        let ghost vm = self@;
        if let PqlValue::Array(a) = &self {
            let ghost am = models(a@);
            let mut out: Vec<PqlValue> = Vec::new();
            let mut j: usize = 0;
            while j < a.len()
                invariant
                    j <= a@.len(),
                    am == models(a@),
                    vm == self@,
                    vm == ValueModel::Array(am),
                    out@.len() == j,
                    forall|k: int| 0 <= k < j ==> (#[trigger] out@[k])@ == upper_spec(am[k]),
                decreases a@.len() - j,
            {
                let x = a[j].copy();
                proof {
                    assert(am[j as int] == a@[j as int]@);
                    assert(vm->Array_0 == am);
                    assert(decreases_to!(vm => vm->Array_0));
                    assert(decreases_to!(am => am[j as int]));
                    assert(decreases_to!(vm => x@));
                }
                out.push(x.to_uppercase());
                j = j + 1;
            }
            assert(models(out@) =~= upper_spec(vm)->Array_0);
            return PqlValue::Array(out);
        }
        match self {
            PqlValue::Str(s) => PqlValue::Str(str_to_uppercase(s.as_str())),
            other => other,
        }
    }
}

fn count_arrays(a: &Vec<PqlValue>) -> (r: Result<PqlValue, EvalError>)
    ensures
        match count_each(models(a@)) {
            Ok(s) => eval_model(r) == Ok::<ValueModel, EvalError>(ValueModel::Array(s)),
            Err(e) => r == Err::<PqlValue, EvalError>(e),
        },
{
    let ghost am = models(a@);
    let mut out: Vec<PqlValue> = Vec::new();
    let mut j: usize = 0;
    assert(am.take(0) =~= Seq::<ValueModel>::empty());
    assert(models(out@) =~= Seq::<ValueModel>::empty());
    while j < a.len()
        invariant
            j <= a@.len(),
            am == models(a@),
            count_each(am.take(j as int)) == Ok::<Seq<ValueModel>, EvalError>(models(out@)),
        decreases a@.len() - j,
    {
        assert(am.take(j + 1).drop_last() =~= am.take(j as int));
        assert(am[j as int] == a@[j as int]@);
        match &a[j] {
            PqlValue::Array(x) => {
                assert(a@[j as int]@ == ValueModel::Array(models(x@)));
                if x.len() as u64 > i64::MAX as u64 {
                    proof {
                        lemma_count_each_err(am, j + 1, EvalError::Overflow);
                    }
                    return Err(EvalError::Overflow);
                }
                let ghost before = models(out@);
                out.push(PqlValue::Int(x.len() as i64));
                assert(models(out@) =~= before.push(ValueModel::Int(x@.len() as i64)));
            },
            _ => {
                proof {
                    lemma_count_each_err(am, j + 1, EvalError::NotAnArray);
                }
                return Err(EvalError::NotAnArray);
            },
        }
        j = j + 1;
    }
    assert(am.take(j as int) =~= am);
    Ok(PqlValue::Array(out))
}

/// An error met at some element stands for the whole sequence.
proof fn lemma_count_each_err(a: Seq<ValueModel>, k: int, e: EvalError)
    requires
        0 <= k <= a.len(),
        count_each(a.take(k)) == Err::<Seq<ValueModel>, EvalError>(e),
    ensures
        count_each(a) == Err::<Seq<ValueModel>, EvalError>(e),
    decreases a.len(),
{
    if k < a.len() {
        assert(a.drop_last().take(k) =~= a.take(k));
        lemma_count_each_err(a.drop_last(), k, e);
    } else {
        assert(a.take(k) =~= a);
    }
}

fn combine(op: ArithOp, a: Result<PqlValue, EvalError>, b: Result<PqlValue, EvalError>) -> (r:
    Result<PqlValue, EvalError>)
    ensures
        eval_model(r) == eval_binary(op, eval_model(a), eval_model(b)),
{
    match (a, b) {
        (Err(e), _) => Err(e),
        (Ok(_), Err(e)) => Err(e),
        (Ok(x), Ok(y)) => arith(op, &x, &y),
    }
}

impl Expr {
    /// The value of the expression in `env` (see `expr_eval`).
    pub fn eval(self, env: &Env) -> (r: Result<PqlValue, EvalError>)
        ensures
            eval_model(r) == expr_eval(self@, env@),
        decreases self,
    {
        match self {
            Expr::Star => Err(EvalError::Unsupported),
            Expr::Sql(_) => Err(EvalError::Unsupported),
            Expr::Value(v) => Ok(v),
            Expr::Selector(s) => match s.try_evaluate(env) {
                Some(Some(x)) => Ok(x),
                Some(None) => Ok(PqlValue::Null),
                None => Err(EvalError::Unresolved),
            },
            Expr::Func(f) => (*f).evaluate(env),
            Expr::Add(a, b) => combine(ArithOp::Add, (*a).eval(env), (*b).eval(env)),
            Expr::Sub(a, b) => combine(ArithOp::Sub, (*a).eval(env), (*b).eval(env)),
            Expr::Mul(a, b) => combine(ArithOp::Mul, (*a).eval(env), (*b).eval(env)),
            Expr::Div(a, b) => combine(ArithOp::Div, (*a).eval(env), (*b).eval(env)),
            Expr::Rem(a, b) => combine(ArithOp::Rem, (*a).eval(env), (*b).eval(env)),
            Expr::Exp(a, b) => combine(ArithOp::Exp, (*a).eval(env), (*b).eval(env)),
        }
    }

    /// The expression with its paths expanded (see `expr_expand`).
    pub fn expand_fullpath(&self, env: &Env) -> (r: Expr)
        requires
            expr_expand(self@, env@) is Some,
        ensures
            expr_expand(self@, env@) == Some(r@),
        decreases self,
    {
        match self {
            Expr::Selector(s) => Expr::Selector(s.expand_fullpath2(env)),
            Expr::Value(v) => Expr::Value(v.copy()),
            Expr::Add(a, b) => Expr::Add(
                Box::new((**a).expand_fullpath(env)),
                Box::new((**b).expand_fullpath(env)),
            ),
            Expr::Sub(a, b) => Expr::Sub(
                Box::new((**a).expand_fullpath(env)),
                Box::new((**b).expand_fullpath(env)),
            ),
            Expr::Mul(a, b) => Expr::Mul(
                Box::new((**a).expand_fullpath(env)),
                Box::new((**b).expand_fullpath(env)),
            ),
            Expr::Div(a, b) => Expr::Div(
                Box::new((**a).expand_fullpath(env)),
                Box::new((**b).expand_fullpath(env)),
            ),
            Expr::Rem(a, b) => Expr::Rem(
                Box::new((**a).expand_fullpath(env)),
                Box::new((**b).expand_fullpath(env)),
            ),
            Expr::Exp(a, b) => Expr::Exp(
                Box::new((**a).expand_fullpath(env)),
                Box::new((**b).expand_fullpath(env)),
            ),
            _ => Expr::Star,
        }
    }
}

/// The model of a function application.
pub open spec fn func_model(f: Func) -> ExprModel {
    match f {
        Func::Count(x) => ExprModel::Count(Box::new(x@)),
        Func::Upper(x) => ExprModel::Upper(Box::new(x@)),
    }
}

impl Func {
    /// The value of the function in `env`: `COUNT` gives the length of each
    /// array of an array, `UPPER` the value in upper case.
    pub fn evaluate(self, env: &Env) -> (r: Result<PqlValue, EvalError>)
        ensures
            eval_model(r) == expr_eval(func_model(self), env@),
        decreases self,
    {
        match self {
            Func::Count(x) => match x.eval(env) {
                Ok(PqlValue::Array(a)) => count_arrays(&a),
                Ok(_) => Err(EvalError::NotAnArray),
                Err(e) => Err(e),
            },
            Func::Upper(x) => match x.eval(env) {
                Ok(v) => Ok(v.to_uppercase()),
                Err(e) => Err(e),
            },
        }
    }

    /// The function with the paths of its argument expanded.
    pub fn expand_fullpath(self, env: &Env) -> (r: Func)
        requires
            expr_expand(
                match self {
                    Func::Count(x) => x@,
                    Func::Upper(x) => x@,
                },
                env@,
            ) is Some,
        ensures
            match (self, r) {
                (Func::Count(x), Func::Count(y)) => expr_expand(x@, env@) == Some(y@),
                (Func::Upper(x), Func::Upper(y)) => expr_expand(x@, env@) == Some(y@),
                _ => false,
            },
    {
        match self {
            Func::Count(x) => Func::Count(x.expand_fullpath(env)),
            Func::Upper(x) => Func::Upper(x.expand_fullpath(env)),
        }
    }

    /// Whether the function aggregates (`COUNT` does, `UPPER` does not).
    pub fn is_aggregation(&self) -> (r: bool)
        ensures
            r == (self is Count),
    {
        match self {
            Func::Count(_) => true,
            Func::Upper(_) => false,
        }
    }
}


/// The texts of a list of strings, as a set.
pub open spec fn str_set(v: Seq<String>) -> Set<Seq<char>> {
    Set::new(|x: Seq<char>| exists|i: int| 0 <= i < v.len() && (#[trigger] v[i])@ == x)
}

/// No text occurs twice in a list of strings.
pub open spec fn strs_distinct(v: Seq<String>) -> bool {
    forall|i: int, j: int| 0 <= i < j < v.len() ==> v[i]@ != v[j]@
}

/// The texts of the full paths that an expression reads: each path expanded
/// (see `expansion`) and written with `.`; `None` where the expression holds
/// something other than paths and arithmetic, or a path runs through a
/// circle of aliases.
pub open spec fn source_names(e: ExprModel, m: EnvModel) -> Option<Set<Seq<char>>>
    decreases e,
{
    match e {
        ExprModel::Selector(s) => match expansion(m, s) {
            Some(p) => Some(set![join_dot(texts(p))]),
            None => None,
        },
        ExprModel::Add(a, b) => union_names(source_names(*a, m), source_names(*b, m)),
        ExprModel::Sub(a, b) => union_names(source_names(*a, m), source_names(*b, m)),
        ExprModel::Mul(a, b) => union_names(source_names(*a, m), source_names(*b, m)),
        ExprModel::Div(a, b) => union_names(source_names(*a, m), source_names(*b, m)),
        ExprModel::Rem(a, b) => union_names(source_names(*a, m), source_names(*b, m)),
        ExprModel::Exp(a, b) => union_names(source_names(*a, m), source_names(*b, m)),
        _ => None,
    }
}

/// The union of two sets of names, where both exist.
pub open spec fn union_names(a: Option<Set<Seq<char>>>, b: Option<Set<Seq<char>>>) -> Option<
    Set<Seq<char>>,
> {
    match (a, b) {
        (Some(x), Some(y)) => Some(x.union(y)),
        _ => None,
    }
}

fn contains_str(v: &Vec<String>, x: &String) -> (r: bool)
    ensures
        r == exists|i: int| 0 <= i < v@.len() && (#[trigger] v@[i])@ == x@,
{
    let mut i: usize = 0;
    while i < v.len()
        invariant
            i <= v@.len(),
            forall|j: int| 0 <= j < i ==> v@[j]@ != x@,
        decreases v@.len() - i,
    {
        if v[i] == *x {
            return true;
        }
        i = i + 1;
    }
    false
}

/// Adds the strings of `b` that `a` lacks to `a`.
fn union_into(a: &mut Vec<String>, b: Vec<String>)
    requires
        strs_distinct(old(a)@),
    ensures
        strs_distinct(final(a)@),
        str_set(final(a)@) == str_set(old(a)@).union(str_set(b@)),
{
    let ghost start = a@;
    let mut i: usize = 0;
    while i < b.len()
        invariant
            i <= b@.len(),
            strs_distinct(a@),
            str_set(a@) == str_set(start).union(str_set(b@.take(i as int))),
        decreases b@.len() - i,
    {
        let ghost before = a@;
        let x = b[i].clone();
        if !contains_str(a, &x) {
            a.push(x);
            assert(str_set(a@) =~= str_set(before).insert(b@[i as int]@)) by {
                assert forall|y: Seq<char>| str_set(a@).contains(y) implies str_set(before).insert(
                    b@[i as int]@,
                ).contains(y) by {
                    let k = choose|k: int| 0 <= k < a@.len() && (#[trigger] a@[k])@ == y;
                    if k < before.len() {
                        assert(before[k]@ == y);
                    }
                }
                assert forall|y: Seq<char>| str_set(before).insert(b@[i as int]@).contains(
                    y,
                ) implies str_set(a@).contains(y) by {
                    if y == b@[i as int]@ {
                        assert(a@[before.len() as int]@ == y);
                    } else {
                        let k = choose|k: int| 0 <= k < before.len() && (#[trigger] before[k])@ == y;
                        assert(a@[k]@ == y);
                    }
                }
            }
        } else {
            assert(str_set(before).contains(b@[i as int]@));
            assert(str_set(before).insert(b@[i as int]@) =~= str_set(before));
        }
        let ghost t1 = b@.take(i + 1);
        let ghost t0 = b@.take(i as int);
        assert(str_set(t1) =~= str_set(t0).insert(b@[i as int]@)) by {
            assert forall|y: Seq<char>| str_set(t1).contains(y) implies str_set(t0).insert(
                b@[i as int]@,
            ).contains(y) by {
                let k = choose|k: int| 0 <= k < t1.len() && (#[trigger] t1[k])@ == y;
                if k < i {
                    assert(t0[k]@ == y);
                }
            }
            assert forall|y: Seq<char>| str_set(t0).insert(b@[i as int]@).contains(
                y,
            ) implies str_set(t1).contains(y) by {
                if y == b@[i as int]@ {
                    assert(t1[i as int]@ == y);
                } else {
                    let k = choose|k: int| 0 <= k < t0.len() && (#[trigger] t0[k])@ == y;
                    assert(t1[k]@ == y);
                }
            }
        }
        assert(str_set(start).union(str_set(b@.take(i + 1))) =~= str_set(start).union(
            str_set(b@.take(i as int)),
        ).insert(b@[i as int]@));
        i = i + 1;
    }
    assert(b@.take(i as int) =~= b@);
}

impl Expr {
    /// The texts of the full paths that the expression reads, each once
    /// (see `source_names`).
    pub fn source_field_name_set(&self, env: &Env) -> (r: Vec<String>)
        requires
            source_names(self@, env@) is Some,
        ensures
            strs_distinct(r@),
            str_set(r@) == source_names(self@, env@)->Some_0,
        decreases self,
    {
        match self {
            Expr::Selector(s) => {
                let name = s.expand_fullpath2(env).to_string();
                let ghost nm = name@;
                let mut v: Vec<String> = Vec::new();
                v.push(name);
                assert(str_set(v@) =~= set![nm]) by {
                    assert forall|y: Seq<char>| str_set(v@).contains(y) implies y == nm by {
                        let k = choose|k: int| 0 <= k < v@.len() && (#[trigger] v@[k])@ == y;
                    }
                    assert(v@[0]@ == nm);
                }
                v
            },
            Expr::Add(a, b) | Expr::Sub(a, b) | Expr::Mul(a, b) | Expr::Div(a, b) | Expr::Rem(a, b)
            | Expr::Exp(a, b) => {
                let mut x = (**a).source_field_name_set(env);
                let y = (**b).source_field_name_set(env);
                union_into(&mut x, y);
                x
            },
            _ => Vec::new(),
        }
    }
}

} // verus!
