use piqel::engine::{evaluate as run_text, EngineError};
use piqel::lang::LangType;
use piqel::planner::drain::Drain;
use piqel::planner::{evaluate, QueryError};
use piqel::pqlir_parser;
use piqel::sql::eval::EvalError;
use piqel::planner::filter::Filter;
use piqel::sql::{Env, Expr, Field, Selector, Sql, WhereCond};
use piqel::value::PqlValue;

fn parse(s: &str) -> PqlValue {
    pqlir_parser::from_str(s).expect("a PartiQL value")
}

fn get_data() -> PqlValue {
    parse(
        r#"
{
  'hr': {
      'employeesNest': <<
         {
          'id': 3,
          'name': 'Bob Smith',
          'title': null,
          'projects': [ { 'name': 'AWS Redshift Spectrum querying' },
                        { 'name': 'AWS Redshift security' },
                        { 'name': 'AWS Aurora security' }
                      ]
          },
          {
              'id': 4,
              'name': 'Susan Smith',
              'title': 'Dev Mgr',
              'projects': []
          },
          {
              'id': 6,
              'name': 'Jane Smith',
              'title': 'Software Eng 2',
              'projects': [ { 'name': 'AWS Redshift security' } ]
          }
      >>
    }
}
    "#,
    )
}

fn env_with_aliases() -> Env {
    let mut env = Env::new();
    env.insert("", Expr::Value(get_data()));
    let drain = Drain(vec![
        Field::from_str(r#"hr.employeesNest AS e"#).unwrap(),
        Field::from_str(r#"e.projects AS p"#).unwrap(),
    ]);
    drain.excute(&mut env);
    env
}

fn projects() -> PqlValue {
    parse(
        r#"
[
  [
    { "name": "AWS Redshift Spectrum querying" },
    { "name": "AWS Redshift security" },
    { "name": "AWS Aurora security" }
  ],
  [],
  [
    { "name": "AWS Redshift security" }
  ]
]
"#,
    )
}

#[test]
fn test_eval_selector_aliaspath() {
    let env = env_with_aliases();
    let selector = Selector::from_str("e.projects").unwrap();
    assert_eq!(selector.evaluate(&env), Some(projects()));
}

#[test]
fn test_eval_selector_aliaspath2() {
    let env = env_with_aliases();
    let selector = Selector::from_str("p").unwrap();
    assert_eq!(selector.evaluate(&env), Some(projects()));
}

#[test]
fn test_eval_selector_num() {
    let mut env = Env::new();
    env.insert("", Expr::Value(get_data()));
    let drain = Drain(vec![Field::from_str(r#"3 AS n"#).unwrap()]);
    drain.excute(&mut env);
    let selector = Selector::from_str("n").unwrap();
    assert_eq!(selector.evaluate(&env), Some(parse("3")));
}

#[test]
fn env_get_full_path() {
    let sql = Sql::from_str(
        r#"
SELECT
  e.name AS employeeName, p.name AS projectName
FROM
  hr.employeesNest AS e, e.projects AS p
        "#,
    )
    .unwrap();
    let mut env = Env::new();
    Drain(sql.from_clause).excute(&mut env);
    assert_eq!(
        env.expand_fullpath(&Field::from_str("e.name AS employeeName").unwrap().expr).to_string(),
        "hr.employeesNest.name",
    );
    assert_eq!(
        env.expand_fullpath(&Field::from_str("p.name AS projectName").unwrap().expr).to_string(),
        "hr.employeesNest.projects.name",
    );
}

#[test]
fn test_expr_mul() {
    let sql = Sql::from_str(r#"SELECT 4 * a AS aa FROM 3 as a"#).unwrap();
    let res = evaluate(sql, PqlValue::Null).unwrap();
    assert_eq!(res, parse(r#"[{ "aa": 12 }]"#));
}

#[test]
fn test_rename() {
    let sql = Sql::from_str(
        r#"
SELECT e.id,
       e.name AS employeeName,
       e.title AS title
FROM
    {
        'employees': <<
            { 'id': 3, 'name': 'Bob Smith',   'title': null },
            { 'id': 4, 'name': 'Susan Smith', 'title': 'Dev Mgr' },
            { 'id': 6, 'name': 'Jane Smith',  'title': 'Software Eng 2'}
        >>
    } AS hr,
    hr.employees e
LIMIT 2
        "#,
    )
    .unwrap();
    let res = evaluate(sql, PqlValue::Null).unwrap();
    assert_eq!(
        res,
        parse(
            r#"
        [
            { 'id': 3, 'employeeName': 'Bob Smith',   'title': null },
            { 'id': 4, 'employeeName': 'Susan Smith', 'title': 'Dev Mgr' }
        ]
            "#
        )
    );
}

#[test]
fn security_projects_by_employee() {
    let sql = Sql::from_str(
        "SELECT e.name AS employeeName, p.name AS projectName
         FROM hr.employeesNest AS e, e.projects AS p
         WHERE p.name LIKE '%security%'",
    )
    .unwrap();
    let res = evaluate(sql, get_data()).unwrap();
    assert_eq!(
        res,
        parse(
            "[
            { 'employeeName': 'Bob Smith', 'projectName': 'AWS Redshift security' },
            { 'employeeName': 'Bob Smith', 'projectName': 'AWS Aurora security' },
            { 'employeeName': 'Jane Smith', 'projectName': 'AWS Redshift security' }
        ]"
        )
    );
}

#[test]
fn readme_select_two_keys() {
    let data = parse(
        r#"{
  "SHELL": "bash",
  "NAME": "my machine name",
  "LOGNAME": "fuyutarow",
  "USER": "fuyutarow"
}"#,
    );
    let res = evaluate(Sql::from_str("SELECT NAME, LOGNAME").unwrap(), data).unwrap();
    assert_eq!(res, parse(r#"[{ "NAME": "my machine name", "LOGNAME": "fuyutarow" }]"#));
}

#[test]
fn upper_and_count() {
    let data = parse("[{'name': 'Bob', 'tags': ['a', 'b']}, {'name': 'Sue', 'tags': []}]");
    let res = evaluate(Sql::from_str("SELECT UPPER(name) AS n").unwrap(), data).unwrap();
    assert_eq!(res, parse("[{'n': 'BOB'}, {'n': 'SUE'}]"));
    let data = parse("{'xs': [[1, 2], [], [3]]}");
    let res = evaluate(Sql::from_str("SELECT COUNT(xs) AS c").unwrap(), data).unwrap();
    assert_eq!(res, parse("[{'c': 2}, {'c': 0}, {'c': 1}]"));
}

#[test]
fn order_by_and_limit_window() {
    let data = parse("[{'k': 'b'}, {'k': 'a'}, {'k': 'c'}]");
    let res = evaluate(Sql::from_str("SELECT k ORDER BY k ASC LIMIT 2 OFFSET 1").unwrap(), data).unwrap();
    assert_eq!(res, parse("[{'k': 'b'}, {'k': 'c'}]"));
}

#[test]
fn errors_are_reported() {
    assert_eq!(
        evaluate(Sql::from_str("SELECT k / 2").unwrap(), parse("{'k': 1}")),
        Err(QueryError::Project(piqel::planner::project::ProjectError::MissingName))
    );
    assert_eq!(
        evaluate(Sql::from_str("SELECT k + 1 AS h").unwrap(), parse("{'k': 'x'}")),
        Err(QueryError::Project(piqel::planner::project::ProjectError::Eval(EvalError::TypeMismatch)))
    );
    assert_eq!(
        evaluate(Sql::from_str("SELECT k LIMIT 5").unwrap(), parse("[{'k': 1}]")),
        Ok(parse("[{'k': 1}]"))
    );
    assert_eq!(
        evaluate(Sql::from_str("SELECT k / 2 AS h").unwrap(), parse("{'k': 1}")),
        Err(QueryError::Project(piqel::planner::project::ProjectError::Eval(EvalError::Unsupported)))
    );
}

#[test]
fn engine_runs_text_queries() {
    let data = parse("{'a': [1, 2]}");
    let (v, t) = run_text("SELECT a", data, "json", "yaml").unwrap();
    assert_eq!(v, parse("[{'a': 1}, {'a': 2}]"));
    assert_eq!(t, LangType::Yaml);
    assert_eq!(run_text("SELECT a", PqlValue::Null, "jsn", "yaml"), Err(EngineError::UnknownLang));
    assert!(matches!(run_text("SELECT", PqlValue::Null, "json", "json"), Err(EngineError::Syntax(_))));
}

#[test]
fn de_value_t1() {
    let input = r#"
    {
    'hr': {
        'employees': <<
            -- a tuple is denoted by { ... } in the PartiQL data model
            {
                "id": 3, 'name': 'Bob Smith',   'title': null },
            <<
                  1 , 3, 4>>,
            { 'id': 4, 'name': 'Susan Smith', 'title': 'Dev Mgr' },
            { 'id': 6, 'name': 'Jane Smith',  'title': 'Software Eng 2'}
        >>
    }
}"#;
    match pqlir_parser::pql_value(&input) {
        Ok(_) => assert_eq!(true, true),
        Err(_) => assert_eq!(true, false),
    }
}

#[test]
fn expanding_twice_changes_nothing() {
    let sql = Sql::from_str("SELECT p.name FROM hr.employeesNest AS e, e.projects AS p").unwrap();
    let mut env = Env::new();
    Drain(sql.from_clause).excute(&mut env);
    let once = Selector::from_path("p.name").expand_fullpath2(&env);
    assert_eq!(once.to_string(), "hr.employeesNest.projects.name");
    assert_eq!(once.expand_fullpath2(&env), once);
}

#[test]
fn where_that_keeps_nothing_gives_an_empty_result() {
    let f = Filter(Some(Box::new(WhereCond::Like {
        expr: Expr::Selector(Selector::from_path("t")),
        right: "%z%".to_owned(),
    })));
    let env = Env::new();
    assert_eq!(f.execute(parse("[{'t': 'a'}]"), &env), Ok(PqlValue::Array(vec![])));
    let res = evaluate(Sql::from_str("SELECT t FROM x WHERE t LIKE '%z%'").unwrap(), parse("{'x': [{'t': 'a'}]}"));
    assert_eq!(res, Ok(PqlValue::Array(vec![])));
}

#[test]
fn a_query_needs_select() {
    assert!(run_text("FROM a", parse("{'a': 1}"), "json", "json").is_err());
    assert!(Sql::from_str("FROM a WHERE a = 1").is_err());
    assert!(Sql::from_str("FROM a SELECT a").is_ok());
}

#[test]
fn order_by_a_float_then_limit_past_the_end() {
    let data = parse("[{'n': 'a', 'bmi': 21.5}, {'n': 'b', 'bmi': 30.25}, {'n': 'c', 'bmi': 18.0}]");
    let res = evaluate(Sql::from_str("SELECT n, bmi ORDER BY bmi DESC LIMIT 20").unwrap(), data);
    assert_eq!(
        res,
        Ok(parse("[{'n': 'b', 'bmi': 30.25}, {'n': 'a', 'bmi': 21.5}, {'n': 'c', 'bmi': 18.0}]"))
    );
}
