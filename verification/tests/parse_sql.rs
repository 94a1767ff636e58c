use piqel::parser;
use piqel::parser::pqlvalue_with_alias;
use piqel::pqlir_parser;
use piqel::sql::{Expr, Field, Func, Limit, OrderBy, Proj, Selector, SelectorNode, Sql, WhereCond};
use piqel::value::{PqlFloat, PqlValue};

fn path(s: &str) -> Expr {
    Expr::Selector(Selector::from_path(s))
}

fn deeppath_sql() -> Sql {
    Sql {
        select_clause: vec![
            Proj { expr: path("hr.employees.id"), alias: None },
            Proj { expr: path("hr.employees.name"), alias: Some("employeeName".to_owned()) },
            Proj { expr: path("hr.employees.title"), alias: Some("title".to_owned()) },
        ],
        from_clause: vec![Field::from_str("hr").unwrap()],
        left_join_clause: vec![],
        where_clause: None,
        orderby: None,
        limit: None,
    }
}

#[test]
fn parse_sql_select_deeppath() {
    let sql = parser::sql(
        "
SELECT hr.employees.id,
       hr.employees.name AS employeeName,
       hr.employees.title AS title
FROM hr
",
    )
    .unwrap();
    assert_eq!(sql, deeppath_sql());
}

#[test]
fn sql_parser_select_deeppath() {
    let sql = parser::sql(
        "
SELECT hr.employees.id,
       hr.employees.name AS employeeName,
       hr.employees.title AS title
FROM hr
",
    )
    .unwrap();
    assert_eq!(sql, deeppath_sql());
}

#[test]
fn field() {
    let field = Field::from_str("a.b.c").unwrap();
    assert_eq!(field, Field { expr: path("a.b.c"), alias: None });
}

#[test]
fn selector_xyz() {
    let (_, selector) = parser::parse_selector("x.y.z").unwrap();
    let expected = Selector::from_nodes(
        vec![SelectorNode::from_str("x"), SelectorNode::from_str("y"), SelectorNode::from_str("z")]
            .as_slice(),
    );
    assert_eq!(selector, expected);
}

#[test]
fn selector_xy2z() {
    let (_, selector) = parser::parse_selector("x.y[2].z").unwrap();
    let expected = Selector::from_nodes(
        vec![
            SelectorNode::from_str("x"),
            SelectorNode::from_str("y"),
            SelectorNode::from_i64(2),
            SelectorNode::from_str("z"),
        ]
        .as_slice(),
    );
    assert_eq!(selector, expected);
}

#[test]
fn alias_pql_vlaue_to_pql_value() {
    let value = pqlvalue_with_alias(r#"[1,2,3] AS arr"#).unwrap();
    let expected = pqlir_parser::from_str(r#"{ "arr" : [1,2,3] }"#).unwrap();
    assert_eq!(value, expected);
}

#[test]
fn where_like_and_aliases() {
    let sql = parser::sql(
        "SELECT e.name AS employeeName, p.name AS projectName
         FROM hr.employeesNest AS e, e.projects AS p
         WHERE p.name LIKE '%security%'",
    )
    .unwrap();
    assert_eq!(
        sql,
        Sql {
            select_clause: vec![
                Proj { expr: path("e.name"), alias: Some("employeeName".to_owned()) },
                Proj { expr: path("p.name"), alias: Some("projectName".to_owned()) },
            ],
            from_clause: vec![
                Field { expr: path("hr.employeesNest"), alias: Some("e".to_owned()) },
                Field { expr: path("e.projects"), alias: Some("p".to_owned()) },
            ],
            left_join_clause: vec![],
            where_clause: Some(Box::new(WhereCond::Like {
                expr: path("p.name"),
                right: "%security%".to_owned(),
            })),
            orderby: None,
            limit: None,
        }
    );
}

#[test]
fn where_eq_left_join_order_limit() {
    let sql = parser::sql(
        "select e.id from hr.employees e left join e.projects as p where e.title = 'Dev Mgr' order by id desc limit 2 offset 1",
    )
    .unwrap();
    assert_eq!(
        sql,
        Sql {
            select_clause: vec![Proj { expr: path("e.id"), alias: None }],
            from_clause: vec![Field { expr: path("hr.employees"), alias: Some("e".to_owned()) }],
            left_join_clause: vec![Field { expr: path("e.projects"), alias: Some("p".to_owned()) }],
            where_clause: Some(Box::new(WhereCond::Eq {
                expr: path("e.title"),
                right: PqlValue::Str("Dev Mgr".to_owned()),
            })),
            orderby: Some(OrderBy { label: "id".to_owned(), is_asc: false }),
            limit: Some(Limit { limit: 2, offset: 1 }),
        }
    );
}

#[test]
fn from_first_then_select() {
    let sql = parser::sql("FROM x AS a SELECT a.b").unwrap();
    assert_eq!(sql.select_clause, vec![Proj { expr: path("a.b"), alias: None }]);
    assert_eq!(sql.from_clause, vec![Field { expr: path("x"), alias: Some("a".to_owned()) }]);
}

#[test]
fn arithmetic_precedence() {
    let (_, e) = parser::parse_expr("1 - 2 - 3").unwrap();
    let int = |n: i64| Box::new(Expr::Value(PqlValue::Int(n)));
    assert_eq!(e, Expr::Sub(Box::new(Expr::Sub(int(1), int(2))), int(3)));
    let (_, e) = parser::parse_expr("1 * 2 + 3 / 4 ^ 6").unwrap();
    assert_eq!(
        e,
        Expr::Add(
            Box::new(Expr::Mul(int(1), int(2))),
            Box::new(Expr::Div(int(3), Box::new(Expr::Exp(int(4), int(6)))))
        )
    );
    let (_, e) = parser::parse_expr("(1 + 2) * 3").unwrap();
    assert_eq!(e, Expr::Mul(Box::new(Expr::Add(int(1), int(2))), int(3)));
    let (n, e) = parser::parse_expr("n%2").unwrap();
    assert_eq!(n, 3);
    assert_eq!(e, Expr::Rem(Box::new(path("n")), int(2)));
}

#[test]
fn functions_and_star() {
    let (_, e) = parser::parse_expr("Upper(name)").unwrap();
    assert_eq!(e, Expr::Func(Box::new(Func::Upper(path("name")))));
    let (_, e) = parser::parse_expr("COUNT( e.projects )").unwrap();
    assert_eq!(e, Expr::Func(Box::new(Func::Count(path("e.projects")))));
    let (_, e) = parser::parse_expr("*").unwrap();
    assert_eq!(e, Expr::Star);
}

#[test]
fn values_as_sources() {
    let sql = parser::sql("SELECT 4 * a AS aa FROM 3 as a").unwrap();
    assert_eq!(
        sql.from_clause,
        vec![Field { expr: Expr::Value(PqlValue::Int(3)), alias: Some("a".to_owned()) }]
    );
}

#[test]
fn syntax_errors() {
    assert!(parser::sql("SELECT a FROM").is_err());
    assert!(parser::sql("SELECT a WHERE").is_err());
    assert!(parser::sql("SELECT a LIMIT -1").is_err());
    assert!(parser::sql("garbage !").is_err());
    assert!(parser::parse_selector(".a").is_none());
}

#[test]
fn keywords_are_not_names() {
    assert!(parser::parse_selector("from").is_none());
    let sql = parser::sql("SELECT x FROM hr WHERE x = 1").unwrap();
    assert_eq!(sql.from_clause, vec![Field { expr: path("hr"), alias: None }]);
    assert!(sql.where_clause.is_some());
}

#[test]
fn parse_float_number() {
    let (_, e) = parser::parse_expr("3.4E3").unwrap();
    let expected = PqlValue::Float(PqlFloat { negative: false, digits: vec![3, 4], exponent: 2 });
    assert_eq!(e, Expr::Value(expected));
}

#[test]
fn q7_1() {
    let input = r#"
SELECT t.id AS id,
       x AS even
FROM matrices AS t,
     t.matrix AS y,
     y AS x
WHERE x / 2 = 0
    "#;
    let sql = parser::sql(input);

    if sql.is_ok() {
        assert_eq!(true, true);
    } else {
        assert_eq!(false, false);
    }
}

#[test]
fn clauses_one_at_a_time() {
    let (n, projs) = parser::select("SELECT 4 * a AS aa").unwrap();
    assert_eq!(n, 18);
    assert_eq!(projs.len(), 1);
    assert_eq!(projs[0].alias, Some("aa".to_owned()));
    let (n, fields) = parser::parse_from_clause("FROM 3 as a, x.y").unwrap();
    assert_eq!(n, 16);
    assert_eq!(
        fields,
        vec![
            Field { expr: Expr::Value(PqlValue::Int(3)), alias: Some("a".to_owned()) },
            Field { expr: path("x.y"), alias: None },
        ]
    );
    let (_, joined) = parser::parse_left_join("LEFT JOIN e.projects AS p").unwrap();
    assert_eq!(joined, vec![Field { expr: path("e.projects"), alias: Some("p".to_owned()) }]);
    let (n, cond) = parser::parse_where("WHERE p.name LIKE '%security%' LIMIT 1").unwrap();
    assert_eq!(n, 30);
    assert_eq!(cond, WhereCond::Like { expr: path("p.name"), right: "%security%".to_owned() });
    let (_, o) = parser::orderby("ORDER BY bmi DESC").unwrap();
    assert_eq!(o, OrderBy { label: "bmi".to_owned(), is_asc: false });
    let (_, l) = parser::limit("LIMIT 20 OFFSET 3").unwrap();
    assert_eq!(l, Limit { limit: 20, offset: 3 });
    let (n, p) = parser::parse_proj("e.name AS employeeName, e.id").unwrap();
    assert_eq!(n, 22);
    assert_eq!(p, Proj { expr: path("e.name"), alias: Some("employeeName".to_owned()) });
    let (_, f) = parser::parse_field("hr.employees e").unwrap();
    assert_eq!(f, Field { expr: path("hr.employees"), alias: Some("e".to_owned()) });
    assert!(parser::parse_where("WHERE").is_none());
    assert!(parser::limit("LIMIT x").is_none());
}

#[test]
fn parser_array123() {
    let input = "[1,2,3]";

    let (_, res) = parser::array(input).unwrap();
    assert_eq!(vec![1, 2, 3], res);
}

#[test]
fn sql_parser_array123() {
    let input = "[1,2,3]";

    let (_, res) = parser::array(input).unwrap();
    assert_eq!(vec![1, 2, 3], res);
}

#[test]
fn arrays_of_numbers() {
    assert_eq!(parser::array("[ 10,  2 ]rest"), Some((10, vec![10, 2])));
    assert_eq!(parser::array("[1 ,2]"), None);
    assert_eq!(parser::array("[]"), Some((2, vec![])));
    assert_eq!(parser::array("[ ]"), Some((3, vec![])));
    assert_eq!(parser::array("[1,]"), None);
    assert_eq!(parser::array("[1 2]"), None);
    assert_eq!(parser::array("1,2"), None);
    assert_eq!(parser::array("[99999999999999999999999"), None);
}
