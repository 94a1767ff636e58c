use piqel::lang::LangType;
use piqel::models::{Array, Atom};
use piqel::planner::order::{limit_rows, order_rows, OrderError};
use piqel::planner::project::{to_list, ProjectError};
use piqel::pqlir_parser;
use piqel::sql::bindings::Bindings;
use piqel::sql::bingings::Bingings;
use piqel::sql::filter::restrict;
use piqel::sql::{Env, Expr, Field, Proj, Selector, SelectorNode, WhereCond};
use piqel::value::{PqlFloat, PqlObject, PqlValue};

fn parse(s: &str) -> PqlValue {
    pqlir_parser::from_str(s).expect("a PartiQL value")
}

fn list(s: &str) -> Vec<PqlValue> {
    match parse(s) {
        PqlValue::Array(a) => a,
        _ => panic!("an array"),
    }
}

#[test]
fn bindings_get_full_path() {
    let fields = vec![
        Field::from_str("hr.employeesNest AS e").unwrap(),
        Field::from_str("e.projects AS p").unwrap(),
    ];
    let bindings = Bindings::from_fields(fields.as_slice());
    assert_eq!(
        bindings
            .get_full_path(&Field::from_str("e.name AS employeeName").unwrap().expr)
            .to_string(),
        "hr.employeesNest.name",
    );
    assert_eq!(
        bindings
            .get_full_path(&Field::from_str("p.name AS projectName").unwrap().expr)
            .to_string(),
        "hr.employeesNest.projects.name",
    );
    assert_eq!(bindings.from_alias("e").unwrap().to_string(), "hr.employeesNest");
    assert!(bindings.from_alias("x").is_none());
}

#[test]
fn bingings_both_ways() {
    let fields = vec![
        Field::from_str("hr.employeesNest AS e").unwrap(),
        Field::from_str("e.projects AS p").unwrap(),
        Field::from_str("[1, 2] AS v").unwrap(),
    ];
    let b = Bingings::from_fields(fields.as_slice());
    assert_eq!(b.from_alias("p").unwrap().to_string(), "e.projects");
    assert!(b.from_alias("v").is_none());
    assert_eq!(
        b.to_alias(&Selector::from_path("hr.employeesNest")).unwrap().to_string(),
        "e"
    );
    assert!(b.to_alias(&Selector::from_path("hr")).is_none());
}

#[test]
fn atom_and_array_text() {
    assert_eq!(Atom::new(7).to_string(), "{\n  '_1': 7,\n}\n");
    let a = Array::from_slice(&[1, 20]);
    assert_eq!(
        a.to_string(),
        "<<\n  {\n  '_1': 1,\n}\n,\n  {\n  '_1': 20,\n}\n,\n>>\n"
    );
    assert_eq!(Array::from_slice(&[]).to_string(), "<<\n>>\n");
}

#[test]
fn lang_names() {
    assert_eq!(LangType::from_str("yaml"), Some(LangType::Yaml));
    assert_eq!(LangType::from_str("JSON"), None);
    assert_eq!(LangType::Toml.to_string(), "toml");
}

#[test]
fn to_list_unnests_and_multiplies() {
    let rows = to_list(parse("{'name': ['a', 'b'], 'tags': [['x', 'y'], []]}")).unwrap();
    assert_eq!(
        rows,
        list("[{'name': 'a', 'tags': 'x'}, {'name': 'a', 'tags': 'y'}, {'name': 'b'}]")
    );
    let rows = to_list(parse("{'n': 1, 'm': [1, 2]}")).unwrap();
    assert_eq!(rows, list("[{'n': 1, 'm': 1}]"));
    assert_eq!(to_list(parse("{'m': [], 'n': 1}")), Err(ProjectError::ShortColumn));
    assert_eq!(to_list(parse("3")).unwrap(), vec![]);
}

#[test]
fn source_names_of_an_expression() {
    let mut env = Env::new();
    env.insert("e", Expr::Selector(Selector::from_path("hr.employees")));
    let (_, e) = piqel::parser::parse_expr("e.a * e.b + e.a").unwrap();
    let names = e.source_field_name_set(&env);
    assert_eq!(names, vec!["hr.employees.a".to_owned(), "hr.employees.b".to_owned()]);
}

#[test]
fn proj_to_field() {
    let mut env = Env::new();
    env.insert("e", Expr::Selector(Selector::from_path("hr.employees")));
    let p = Proj { expr: Expr::Selector(Selector::from_path("e.name")), alias: Some("n".to_owned()) };
    let f = p.to_field(&env);
    assert_eq!(f, Field { expr: Expr::Selector(Selector::from_path("hr.employees.name")), alias: Some("n".to_owned()) });
}

#[test]
fn filtering_twice_changes_nothing() {
    let value = parse("[{'n': 'ab'}, {'n': 'cb'}, {'n': 'x'}, {'m': 'b'}]");
    let cond = || Some(WhereCond::Like { expr: Expr::default(), right: "%b".to_owned() });
    let once = restrict(Some(value), &Selector::from_path("n"), &cond()).unwrap();
    assert_eq!(once, parse("[{'n': 'ab'}, {'n': 'cb'}]"));
    let twice = restrict(Some(once.copy()), &Selector::from_path("n"), &cond()).unwrap();
    assert_eq!(twice, once);
}

#[test]
fn ordering_is_stable_and_skips_missing_keys() {
    let rows = list("[{'k': 2, 'i': 0}, {'i': 1}, {'k': 1, 'i': 2}, {'k': 2, 'i': 3}, {'k': null, 'i': 4}, {'k': 'a', 'i': 5}]");
    let asc = order_rows(rows, "k", true).unwrap();
    assert_eq!(
        asc,
        list("[{'k': null, 'i': 4}, {'k': 'a', 'i': 5}, {'k': 1, 'i': 2}, {'k': 2, 'i': 0}, {'k': 2, 'i': 3}]")
    );
    let rows = list("[{'k': true}, {'k': false}, {'k': 'b'}, {'k': 'ab'}]");
    let desc = order_rows(rows, "k", false).unwrap();
    assert_eq!(desc, list("[{'k': true}, {'k': false}, {'k': 'b'}, {'k': 'ab'}]"));
    let keyed = |fs: &[(bool, &[u8], i64)]| -> Vec<PqlValue> {
        fs.iter()
            .map(|(negative, digits, exponent)| {
                let f = PqlFloat { negative: *negative, digits: digits.to_vec(), exponent: *exponent };
                let mut o = PqlObject::new();
                o.insert("k".to_owned(), PqlValue::Float(f));
                PqlValue::Object(o)
            })
            .collect()
    };
    let rows = keyed(&[(false, &[1, 5], -1), (true, &[2, 2, 5], -2), (false, &[1], 1), (false, &[], 0), (false, &[1, 2, 5], -2), (true, &[5], -1)]);
    assert_eq!(
        order_rows(rows, "k", true).unwrap(),
        keyed(&[(true, &[2, 2, 5], -2), (true, &[5], -1), (false, &[], 0), (false, &[1, 2, 5], -2), (false, &[1, 5], -1), (false, &[1], 1)])
    );
    assert_eq!(order_rows(list("[{'k': [1]}]"), "k", true), Err(OrderError::UnorderableKey));
}

#[test]
fn limit_takes_a_window() {
    let rows = list("[1, 2, 3, 4]");
    assert_eq!(limit_rows(rows, 2, 1).unwrap(), list("[2, 3]"));
    assert_eq!(limit_rows(list("[1, 2]"), 2, 1).unwrap(), list("[2]"));
    assert_eq!(limit_rows(list("[1, 2]"), 5, 7).unwrap(), vec![]);
    assert_eq!(limit_rows(list("[1, 2]"), 0, 2).unwrap(), vec![]);
}

#[test]
fn reading_a_path_back_from_its_text() {
    let s = Selector::from_path("a.b.c");
    assert_eq!(Selector::from_path(s.to_string().as_str()), s);
    assert_eq!(Selector::from_path("x").to_string(), "x");
}

#[test]
fn select_at_arr_1() {
    let value = pqlir_parser::from_str(r#"{ "arr" : [1,2,4] }"#).unwrap();
    let selected_value = value.select_by_selector(&Selector {
        data: vec![SelectorNode::String(String::from("arr")), SelectorNode::Number(1)],
    });
    assert_eq!(selected_value, Some(pqlir_parser::from_str("2").unwrap()));
}

#[test]
fn alias_of_a_path_names_it_again() {
    let fields = vec![
        Field::from_str("hr.employeesNest AS e").unwrap(),
        Field::from_str("e.projects AS p").unwrap(),
        Field::from_str("hr.employeesNest AS f").unwrap(),
    ];
    let b = Bingings::from_fields(fields.as_slice());
    for text in ["hr.employeesNest", "e.projects"] {
        let alias = b.to_alias(&Selector::from_path(text)).unwrap();
        assert_eq!(b.from_alias(alias.to_string().as_str()).unwrap().to_string(), text);
    }
    assert_eq!(b.to_alias(&Selector::from_path("hr.employeesNest")).unwrap().to_string(), "f");
}

#[test]
fn path_of_an_alias_leads_back_to_it() {
    let fields = vec![
        Field::from_str("hr.employeesNest AS e").unwrap(),
        Field::from_str("e.projects AS p").unwrap(),
    ];
    let b = Bingings::from_fields(fields.as_slice());
    for alias in ["e", "p"] {
        let path = b.from_alias(alias).unwrap();
        assert_eq!(b.to_alias(&path).unwrap().to_string(), alias);
    }
}

#[test]
fn every_value_is_valid() {
    let v = parse("{'a': [{'b': 1}, {'c': {'d': 2}}], 'e': 3}");
    v.check_valid();
    assert_eq!(v, parse("{'a': [{'b': 1}, {'c': {'d': 2}}], 'e': 3}"));
}
