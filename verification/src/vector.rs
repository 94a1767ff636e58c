//! Columns of values, combined element by element with the arithmetic of
//! `sql::eval`, and the negation of a number.
use vstd::prelude::*;

use crate::sql::eval::{arith, arith_spec, eval_model, int_result, ArithOp, EvalError};
use crate::value::{
    float_canonical, lemma_view_unfold, models, FloatModel, PqlFloat, PqlValue, ValueModel,
};

verus! {

broadcast use lemma_view_unfold;

/// `-v`: an integer must stay within 64 bits; a float changes sign, and
/// zero stays zero; other values are not numbers.
pub open spec fn neg_spec(v: ValueModel) -> Result<ValueModel, EvalError> {
    match v {
        ValueModel::Int(x) => int_result(-x),
        ValueModel::Float(f) => Ok(
            ValueModel::Float(
                FloatModel {
                    negative: f.digits.len() > 0 && !f.negative,
                    digits: f.digits,
                    exponent: f.exponent,
                },
            ),
        ),
        _ => Err(EvalError::TypeMismatch),
    }
}

impl PqlValue {
    /// The negation of a number (see `neg_spec`).
    pub fn neg(self) -> (r: Result<PqlValue, EvalError>)
        ensures
            eval_model(r) == neg_spec(self@),
    {
        match self {
            PqlValue::Int(x) => match 0i64.checked_sub(x) {
                Some(y) => Ok(PqlValue::Int(y)),
                None => Err(EvalError::Overflow),
            },
            PqlValue::Float(f) => {
                let negative = f.digits.len() > 0 && !f.negative;
                Ok(PqlValue::Float(PqlFloat { negative, digits: f.digits, exponent: f.exponent }))
            },
            _ => Err(EvalError::TypeMismatch),
        }
    }
}

/// Negation flips the sign of every nonzero number and undoes itself: an
/// integer's negation added to it gives zero (and the smallest integer has
/// no negation in 64 bits); a nonzero float keeps its digits and exponent and
/// takes the opposite sign, so the negation of a negative number is
/// positive; zero stays zero; negating twice gives back the number.
pub proof fn lemma_neg_flips_sign(v: ValueModel)
    ensures
        v matches ValueModel::Int(x) ==> (x != i64::MIN ==> (neg_spec(v) matches Ok(
            ValueModel::Int(z),
        ) && z + x == 0)),
        v == ValueModel::Int(i64::MIN) ==> neg_spec(v) == Err::<ValueModel, EvalError>(
            EvalError::Overflow,
        ),
        v matches ValueModel::Float(f) ==> (f.digits.len() > 0 ==> (neg_spec(v) matches Ok(
            ValueModel::Float(g),
        ) && g.negative != f.negative && g.digits == f.digits && g.exponent == f.exponent)),
        v matches ValueModel::Float(f) ==> (f.digits.len() > 0 && f.negative ==> (neg_spec(
            v,
        ) matches Ok(ValueModel::Float(g)) && !g.negative)),
        v matches ValueModel::Float(f) ==> (f.digits.len() == 0 ==> (neg_spec(v) matches Ok(
            ValueModel::Float(g),
        ) && !g.negative && g.digits.len() == 0)),
        ((v is Int && v->Int_0 != i64::MIN) || (v is Float && float_canonical(v->Float_0))) ==> (
        neg_spec(v) matches Ok(w) && neg_spec(w) == Ok::<ValueModel, EvalError>(v)),
{
}

/// `a[k] op b[k]` for the first `n` positions, in order; the first error
/// met stops the computation.
pub open spec fn zip_arith(op: ArithOp, a: Seq<ValueModel>, b: Seq<ValueModel>, n: nat) -> Result<
    Seq<ValueModel>,
    EvalError,
>
    decreases n,
{
    if n == 0 {
        Ok(Seq::empty())
    } else {
        match zip_arith(op, a, b, (n - 1) as nat) {
            Err(e) => Err(e),
            Ok(s) => match arith_spec(op, a[n - 1], b[n - 1]) {
                Ok(v) => Ok(s.push(v)),
                Err(e) => Err(e),
            },
        }
    }
}

/// `-a[k]` for the first `n` positions, in order; the first error met
/// stops the computation.
pub open spec fn map_neg(a: Seq<ValueModel>, n: nat) -> Result<Seq<ValueModel>, EvalError>
    decreases n,
{
    if n == 0 {
        Ok(Seq::empty())
    } else {
        match map_neg(a, (n - 1) as nat) {
            Err(e) => Err(e),
            Ok(s) => match neg_spec(a[n - 1]) {
                Ok(v) => Ok(s.push(v)),
                Err(e) => Err(e),
            },
        }
    }
}

proof fn lemma_zip_arith_err(
    op: ArithOp,
    a: Seq<ValueModel>,
    b: Seq<ValueModel>,
    k: nat,
    n: nat,
    e: EvalError,
)
    requires
        k <= n,
        zip_arith(op, a, b, k) == Err::<Seq<ValueModel>, EvalError>(e),
    ensures
        zip_arith(op, a, b, n) == Err::<Seq<ValueModel>, EvalError>(e),
    decreases n - k,
{
    if k < n {
        lemma_zip_arith_err(op, a, b, k, (n - 1) as nat, e);
    }
}

proof fn lemma_map_neg_err(a: Seq<ValueModel>, k: nat, n: nat, e: EvalError)
    requires
        k <= n,
        map_neg(a, k) == Err::<Seq<ValueModel>, EvalError>(e),
    ensures
        map_neg(a, n) == Err::<Seq<ValueModel>, EvalError>(e),
    decreases n - k,
{
    if k < n {
        lemma_map_neg_err(a, k, (n - 1) as nat, e);
    }
}

/// A column of values.
#[derive(Debug, PartialEq)]
pub struct PqlVector(pub Vec<PqlValue>);

/// The model of the outcome of a column operation.
pub open spec fn vector_model(r: Result<PqlVector, EvalError>) -> Result<Seq<ValueModel>, EvalError> {
    match r {
        Ok(v) => Ok(models(v.0@)),
        Err(e) => Err(e),
    }
}

/// The shorter of two lengths: columns are combined up to the end of the
/// shorter one.
pub open spec fn min_len(a: nat, b: nat) -> nat {
    if a < b {
        a
    } else {
        b
    }
}

impl PqlVector {
    #[verifier::loop_isolation(false)]
    fn combine(self, other: PqlVector, op: ArithOp) -> (r: Result<PqlVector, EvalError>)
        ensures
            vector_model(r) == zip_arith(
                op,
                models(self.0@),
                models(other.0@),
                min_len(self.0@.len(), other.0@.len()),
            ),
    {
        let a = self.0;
        let b = other.0;
        let n: usize = if a.len() < b.len() {
            a.len()
        } else {
            b.len()
        };
        let ghost ma = models(a@);
        let ghost mb = models(b@);
        let mut out: Vec<PqlValue> = Vec::new();
        assert(models(out@) =~= Seq::<ValueModel>::empty());
        let mut i: usize = 0;
        while i < n
            invariant
                n <= a@.len(),
                n <= b@.len(),
                n == min_len(a@.len(), b@.len()),
                i <= n,
                ma == models(a@),
                mb == models(b@),
                zip_arith(op, ma, mb, i as nat) == Ok::<Seq<ValueModel>, EvalError>(models(out@)),
            decreases n - i,
        {
            assert(ma[i as int] == a@[i as int]@);
            assert(mb[i as int] == b@[i as int]@);
            match arith(op, &a[i], &b[i]) {
                Ok(v) => {
                    let ghost before = models(out@);
                    out.push(v);
                    assert(models(out@) =~= before.push(v@));
                },
                Err(e) => {
                    proof {
                        lemma_zip_arith_err(op, ma, mb, (i + 1) as nat, n as nat, e);
                    }
                    return Err(e);
                },
            }
            i = i + 1;
        }
        Ok(PqlVector(out))
    }

    /// `self[k] + other[k]` for each position of the shorter column (see
    /// `zip_arith`).
    pub fn add(self, other: PqlVector) -> (r: Result<PqlVector, EvalError>)
        ensures
            vector_model(r) == zip_arith(
                ArithOp::Add,
                models(self.0@),
                models(other.0@),
                min_len(self.0@.len(), other.0@.len()),
            ),
    {
        self.combine(other, ArithOp::Add)
    }

    /// `self[k] * other[k]` for each position of the shorter column (see
    /// `zip_arith`).
    pub fn mul(self, other: PqlVector) -> (r: Result<PqlVector, EvalError>)
        ensures
            vector_model(r) == zip_arith(
                ArithOp::Mul,
                models(self.0@),
                models(other.0@),
                min_len(self.0@.len(), other.0@.len()),
            ),
    {
        self.combine(other, ArithOp::Mul)
    }

    /// `-self[k]` for each position (see `map_neg`).
    #[verifier::loop_isolation(false)]
    pub fn neg(self) -> (r: Result<PqlVector, EvalError>)
        ensures
            vector_model(r) == map_neg(models(self.0@), self.0@.len()),
    {
        let a = self.0;
        let ghost ma = models(a@);
        let mut out: Vec<PqlValue> = Vec::new();
        assert(models(out@) =~= Seq::<ValueModel>::empty());
        let mut i: usize = 0;
        while i < a.len()
            invariant
                i <= a@.len(),
                ma == models(a@),
                map_neg(ma, i as nat) == Ok::<Seq<ValueModel>, EvalError>(models(out@)),
            decreases a@.len() - i,
        {
            assert(ma[i as int] == a@[i as int]@);
            match a[i].copy().neg() {
                Ok(v) => {
                    let ghost before = models(out@);
                    out.push(v);
                    assert(models(out@) =~= before.push(v@));
                },
                Err(e) => {
                    proof {
                        lemma_map_neg_err(ma, (i + 1) as nat, a@.len(), e);
                    }
                    return Err(e);
                },
            }
            i = i + 1;
        }
        Ok(PqlVector(out))
    }
}

} // verus!
