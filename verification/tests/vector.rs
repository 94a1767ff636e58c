use piqel::pqlir_parser;
use piqel::sql::eval::EvalError;
use piqel::value::{PqlFloat, PqlValue};
use piqel::vector::PqlVector;

fn ints(v: &[i64]) -> PqlVector {
    PqlVector(v.iter().map(|i| PqlValue::Int(*i)).collect())
}

#[test]
fn negation_of_numbers() {
    assert_eq!(PqlValue::Int(5).neg(), Ok(PqlValue::Int(-5)));
    assert_eq!(PqlValue::Int(i64::MIN).neg(), Err(EvalError::Overflow));
    assert_eq!(
        pqlir_parser::from_str("2.5").unwrap().neg(),
        Ok(PqlValue::Float(PqlFloat { negative: true, digits: vec![2, 5], exponent: -1 }))
    );
    assert_eq!(
        pqlir_parser::from_str("0.0").unwrap().neg(),
        Ok(PqlValue::Float(PqlFloat { negative: false, digits: vec![], exponent: 0 }))
    );
    assert_eq!(PqlValue::Str("a".to_owned()).neg(), Err(EvalError::TypeMismatch));
}

#[test]
fn columns_element_by_element() {
    assert_eq!(ints(&[1, 2, 3]).add(ints(&[10, 20])), Ok(ints(&[11, 22])));
    assert_eq!(ints(&[1, 2, 3]).mul(ints(&[4, 5, 6])), Ok(ints(&[4, 10, 18])));
    assert_eq!(ints(&[1, -2]).neg(), Ok(ints(&[-1, 2])));
    assert_eq!(ints(&[i64::MAX]).add(ints(&[1])), Err(EvalError::Overflow));
    assert_eq!(ints(&[]).add(ints(&[1])), Ok(ints(&[])));
    let mixed = PqlVector(vec![PqlValue::Int(1), PqlValue::Null]);
    assert_eq!(mixed.mul(ints(&[2, 3])), Err(EvalError::TypeMismatch));
}
