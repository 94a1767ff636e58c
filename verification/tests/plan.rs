use piqel::planner::evaluate;
use piqel::pqlir_parser;
use piqel::sql::{Expr, Field, Limit, OrderBy, Proj, Selector, Sql, WhereCond};
use piqel::value::PqlValue;

fn parse(s: &str) -> PqlValue {
    pqlir_parser::from_str(s).expect("a PartiQL value")
}

fn path(s: &str) -> Expr {
    Expr::Selector(Selector::from_path(s))
}

fn hr() -> PqlValue {
    parse(
        "
{
  'hr': {
      'employeesNest': <<
         {
          'id': 3,
          'name': 'Bob Smith',
          'title': null,
          'projects': [ { 'name': 'AWS Redshift Spectrum querying' },
                        { 'name': 'AWS Redshift security' },
                        { 'name': 'AWS Aurora security' }
                      ]
          },
          {
              'id': 4,
              'name': 'Susan Smith',
              'title': 'Dev Mgr',
              'projects': []
          },
          {
              'id': 6,
              'name': 'Jane Smith',
              'title': 'Software Eng 2',
              'projects': [ { 'name': 'AWS Redshift security' } ]
          }
      >>
    }
}",
    )
}

#[test]
fn rename_with_limit_on_bound_value() {
    let data = parse(
        "
    {
        'employees': <<
            { 'id': 3, 'name': 'Bob Smith',   'title': null },
            { 'id': 4, 'name': 'Susan Smith', 'title': 'Dev Mgr' },
            { 'id': 6, 'name': 'Jane Smith',  'title': 'Software Eng 2'}
        >>
    }",
    );
    let sql = Sql {
        select_clause: vec![
            Proj { expr: path("e.id"), alias: None },
            Proj { expr: path("e.name"), alias: Some("employeeName".to_owned()) },
            Proj { expr: path("e.title"), alias: Some("title".to_owned()) },
        ],
        from_clause: vec![
            Field { expr: Expr::Value(data), alias: Some("hr".to_owned()) },
            Field { expr: path("hr.employees"), alias: Some("e".to_owned()) },
        ],
        left_join_clause: vec![],
        where_clause: None,
        orderby: None,
        limit: Some(Limit { limit: 2, offset: 0 }),
    };
    let res = evaluate(sql, PqlValue::Null).unwrap();
    assert_eq!(
        res,
        parse(
            "
        [
            { 'id': 3, 'employeeName': 'Bob Smith',   'title': null },
            { 'id': 4, 'employeeName': 'Susan Smith', 'title': 'Dev Mgr' }
        ]"
        )
    );
}

#[test]
fn where_like_then_unnest() {
    let sql = Sql {
        select_clause: vec![
            Proj { expr: path("e.name"), alias: Some("employeeName".to_owned()) },
            Proj { expr: path("p.name"), alias: Some("projectName".to_owned()) },
        ],
        from_clause: vec![
            Field { expr: path("hr.employeesNest"), alias: Some("e".to_owned()) },
            Field { expr: path("e.projects"), alias: Some("p".to_owned()) },
        ],
        left_join_clause: vec![],
        where_clause: Some(Box::new(WhereCond::Like {
            expr: path("p.name"),
            right: "%security%".to_owned(),
        })),
        orderby: None,
        limit: None,
    };
    let res = evaluate(sql, hr()).unwrap();
    assert_eq!(
        res,
        parse(
            "
        [
            { 'employeeName': 'Bob Smith', 'projectName': 'AWS Redshift security' },
            { 'employeeName': 'Bob Smith', 'projectName': 'AWS Aurora security' },
            { 'employeeName': 'Jane Smith', 'projectName': 'AWS Redshift security' }
        ]"
        )
    );
}

#[test]
fn order_by_descending() {
    let data = parse("[{'n': 2, 's': 'b'}, {'n': 1, 's': 'a'}, {'n': 3, 's': 'c'}, {'n': 2, 's': 'd'}]");
    let sql = Sql {
        select_clause: vec![
            Proj { expr: path("n"), alias: None },
            Proj { expr: path("s"), alias: None },
        ],
        from_clause: vec![],
        left_join_clause: vec![],
        where_clause: None,
        orderby: Some(OrderBy { label: "n".to_owned(), is_asc: false }),
        limit: Some(Limit { limit: 3, offset: 0 }),
    };
    let res = evaluate(sql, data).unwrap();
    assert_eq!(
        res,
        parse("[{'n': 3, 's': 'c'}, {'n': 2, 's': 'b'}, {'n': 2, 's': 'd'}]")
    );
}

#[test]
fn arithmetic_on_a_bound_integer() {
    let sql = Sql {
        select_clause: vec![Proj {
            expr: Expr::Mul(Box::new(Expr::Value(PqlValue::Int(4))), Box::new(path("a"))),
            alias: Some("aa".to_owned()),
        }],
        from_clause: vec![Field { expr: Expr::Value(PqlValue::Int(3)), alias: Some("a".to_owned()) }],
        left_join_clause: vec![],
        where_clause: None,
        orderby: None,
        limit: None,
    };
    let res = evaluate(sql, PqlValue::Null).unwrap();
    assert_eq!(res, parse(r#"[{ "aa": 12 }]"#));
}
