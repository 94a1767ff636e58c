use piqel::pqlir_parser;
use piqel::pqlir_parser::PqlError;
use piqel::value::{PqlFloat, PqlValue};

#[test]
fn pqlir_t1() {
    let input = r#"
    {
    'hr': {
        'employees': <<
            -- a tuple is denoted by { ... } in the PartiQL data model
            {
                "id": 3, 'name': 'Bob Smith',   'title': null },
            <<
                  1 , 3, 4>>,
            { 'id': 4, 'name': 'Susan Smith', 'title': 'Dev Mgr' },
            { 'id': 6, 'name': 'Jane Smith',  'title': 'Software Eng 2'}
        >>
    }
}"#;
    match pqlir_parser::pql_value(&input) {
        Ok(_) => assert_eq!(true, true),
        Err(_) => assert_eq!(true, false),
    }
}

#[test]
fn bag() {
    let input = r#"<<
  {
    'employeeName': 'Bob Smith',
    'projectName': 'AWS Redshift security'
  },
  {
    'employeeName': 'Bob Smith',
    'projectName': 'AWS Aurora security'
  },
  {
    'employeeName': 'Jane Smith',
    'projectName': 'AWS Redshift security'
  }
>>"#;
    match pqlir_parser::pql_value(&input) {
        Ok(_) => assert_eq!(true, true),
        Err(_) => assert_eq!(true, false),
    }
}

#[test]
fn test_integer() {
    assert_eq!(pqlir_parser::pql_value("0000_000_00_0"), Ok(PqlValue::Int(0)));
    assert_eq!(pqlir_parser::pql_value("12345"), Ok(PqlValue::Int(12345)));
    assert_eq!(pqlir_parser::pql_value("+12345"), Ok(PqlValue::Int(12345)));
    assert_eq!(pqlir_parser::pql_value("-12345"), Ok(PqlValue::Int(-12345)));
}

fn float(negative: bool, digits: &[u8], exponent: i64) -> PqlValue {
    PqlValue::Float(PqlFloat { negative, digits: digits.to_vec(), exponent })
}

#[test]
fn test_float() {
    assert_eq!(pqlir_parser::pql_value(".42"), Ok(float(false, &[4, 2], -2)));
    assert_eq!(pqlir_parser::pql_value("41.43"), Ok(float(false, &[4, 1, 4, 3], -2)));
    assert_eq!(pqlir_parser::pql_value("42."), Ok(float(false, &[4, 2], 0)));
    assert_eq!(pqlir_parser::pql_value("6.0"), Ok(float(false, &[6], 0)));
    assert_eq!(pqlir_parser::pql_value(".42e10"), Ok(float(false, &[4, 2], 8)));
    assert_eq!(pqlir_parser::pql_value(".42e+10"), Ok(float(false, &[4, 2], 8)));
    assert_eq!(pqlir_parser::pql_value(".42e-10"), Ok(float(false, &[4, 2], -12)));
    assert_eq!(pqlir_parser::pql_value("41.43e10"), Ok(float(false, &[4, 1, 4, 3], 8)));
    assert_eq!(pqlir_parser::pql_value("41.43e+10"), Ok(float(false, &[4, 1, 4, 3], 8)));
    assert_eq!(pqlir_parser::pql_value("41.43e-10"), Ok(float(false, &[4, 1, 4, 3], -12)));
    assert_eq!(pqlir_parser::pql_value("4200e-2"), Ok(float(false, &[4, 2], 0)));
    assert_eq!(pqlir_parser::pql_value("0.000"), Ok(float(false, &[], 0)));
}

#[test]
fn integer_overflow_is_reported() {
    assert_eq!(pqlir_parser::pql_value("9223372036854775807"), Ok(PqlValue::Int(i64::MAX)));
    assert_eq!(pqlir_parser::pql_value("-9223372036854775808"), Ok(PqlValue::Int(i64::MIN)));
    assert_eq!(pqlir_parser::pql_value("9223372036854775808"), Err(PqlError::Overflow));
}

#[test]
fn strings_and_words() {
    assert_eq!(pqlir_parser::pql_value("'Dev Mgr'"), Ok(PqlValue::Str("Dev Mgr".to_string())));
    assert_eq!(pqlir_parser::pql_value(r#""a\"b""#), Ok(PqlValue::Str(r#"a\"b"#.to_string())));
    assert_eq!(pqlir_parser::pql_value("true"), Ok(PqlValue::Boolean(true)));
    assert_eq!(pqlir_parser::pql_value("false"), Ok(PqlValue::Boolean(false)));
    assert_eq!(pqlir_parser::pql_value("NULL"), Ok(PqlValue::Null));
    assert_eq!(pqlir_parser::pql_value("''"), Err(PqlError::Syntax));
    assert_eq!(pqlir_parser::pql_value("[1, 2"), Err(PqlError::Syntax));
    assert_eq!(pqlir_parser::pql_value("?"), Err(PqlError::Syntax));
}

#[test]
fn arrays_and_objects() {
    let v = pqlir_parser::pql_value("[1, <<2 , 3>>, {'a': 1, 'b': 'x', 'a': 2}]").unwrap();
    match v {
        PqlValue::Array(items) => {
            assert_eq!(items.len(), 3);
            assert_eq!(items[0], PqlValue::Int(1));
            assert_eq!(items[1], PqlValue::Array(vec![PqlValue::Int(2), PqlValue::Int(3)]));
            match &items[2] {
                PqlValue::Object(o) => {
                    assert_eq!(o.len(), 2);
                    let (k0, v0) = o.get_index(0);
                    assert_eq!(k0, "a");
                    assert_eq!(*v0, PqlValue::Int(2));
                    let (k1, v1) = o.get_index(1);
                    assert_eq!(k1, "b");
                    assert_eq!(*v1, PqlValue::Str("x".to_string()));
                }
                _ => panic!("not an object"),
            }
        }
        _ => panic!("not an array"),
    }
}
