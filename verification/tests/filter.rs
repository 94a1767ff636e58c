use piqel::pqlir_parser;
use piqel::sql::filter::{re_from_str, restrict, try_restrict, FilterError};
use piqel::sql::{Expr, Selector, WhereCond};
use piqel::value::PqlValue;

fn parse(s: &str) -> PqlValue {
    pqlir_parser::from_str(s).expect("a PartiQL value")
}

#[test]
fn filter_boolean() {
    let value = parse(
        "
    <<true, false, null>>
   ",
    );
    let res = restrict(Some(value), &Selector::default(), &None);
    assert_eq!(res, Some(parse(r#"<<true>>"#)));
}

#[test]
fn filter_missing() {
    let value = parse(
        "
{
    'top': <<
        {'a': 1, 'b': true, 'c': 'alpha'},
        {'a': 2, 'b': null, 'c': 'beta'},
        {'a': 3, 'c': 'gamma'}
    >>
}
   ",
    );
    let res = restrict(Some(value), &Selector::from_path("top.b"), &None);
    let expected = parse(
        "
{
    'top': <<
        {'a': 1, 'b': true, 'c': 'alpha'}
    >>
}
   ",
    );
    assert_eq!(res, Some(expected));
}

#[test]
fn test_filter_objects() {
    let value = parse(
        "
<<
    {
        'id': 3,
        'name': 'Bob Smith',
        'title': null,
        'projects': [
            { 'name': 'AWS Redshift Spectrum querying' },
            { 'name': 'AWS Redshift security' },
            { 'name': 'AWS Aurora security' }
        ]
    },
    {
        'id': 4,
        'name': 'Susan Smith',
        'title': 'Dev Mgr',
        'projects': []
    },
    {
        'id': 6,
        'name': 'Jane Smith',
        'title': 'Software Eng 2',
        'projects': [ { 'name': 'AWS Redshift security' } ]
    }
>>
   ",
    );
    let selector = Selector::from_path("projects.name");
    let cond = WhereCond::Like { expr: Expr::default(), right: "%security%".to_owned() };
    let res = restrict(Some(value), &selector, &Some(cond));
    let expected = parse(
        "
[
    {
        'id': 3,
        'name': 'Bob Smith',
        'title': null,
        'projects': [
            { 'name': 'AWS Redshift security' },
            { 'name': 'AWS Aurora security' }
        ]
    },
    {
        'id': 6,
        'name': 'Jane Smith',
        'title': 'Software Eng 2',
        'projects': [ { 'name': 'AWS Redshift security' } ]
    }
]
   ",
    );
    assert_eq!(res, Some(expected));
}

#[test]
fn pattern_string() {
    let data = parse(
        "
{
    'hr': {
        'employeesNest': <<
            {
            'id': 3,
            'name': 'Bob Smith',
            'title': null,
            'projects': [ { 'name': 'AWS Redshift Spectrum querying' },
                            { 'name': 'AWS Redshift security' },
                            { 'name': 'AWS Aurora security' }
                        ]
            },
            {
                'id': 4,
                'name': 'Susan Smith',
                'title': 'Dev Mgr',
                'projects': []
            },
            {
                'id': 6,
                'name': 'Jane Smith',
                'title': 'Software Eng 2',
                'projects': [ { 'name': 'AWS Redshift security' } ]
            }
        >>
    }
}
   ",
    );
    let path = Selector::from_path("hr.employeesNest.projects.name");
    let cond = WhereCond::Like { expr: Expr::default(), right: "%security%".to_owned() };
    let res = restrict(Some(data), &path, &Some(cond));
    let expected = parse(
        "
{
    'hr': {
        'employeesNest': <<
            {
                'id': 3,
                'name': 'Bob Smith',
                'title': null,
                'projects': [
                    { 'name': 'AWS Redshift security' },
                    { 'name': 'AWS Aurora security' }
                ]
            },
            {
                'id': 6,
                'name': 'Jane Smith',
                'title': 'Software Eng 2',
                'projects': [ { 'name': 'AWS Redshift security' } ]
            }
        >>
    }
}
   ",
    );
    assert_eq!(res, Some(expected));
}

#[test]
fn like_patterns_become_regexes() {
    assert_eq!(re_from_str("%security%"), "(?s)^.*security.*$");
    assert_eq!(re_from_str("inet%"), "(?s)^inet.*$");
    assert_eq!(re_from_str("a_c"), "(?s)^a.c$");
    assert_eq!(re_from_str("a.c"), "(?s)^a\\.c$");
    assert_eq!(re_from_str(""), "(?s)^$");
}

#[test]
fn like_wildcards_anywhere() {
    let strs = |v: &[&str]| PqlValue::Array(v.iter().map(|t| PqlValue::Str(t.to_string())).collect());
    let value = || strs(&["abc", "a.c", "axxc", "ab"]);
    let like = |p: &str| WhereCond::Like { expr: Expr::default(), right: p.to_owned() };
    let res = restrict(Some(value()), &Selector::default(), &Some(like("a%c")));
    assert_eq!(res, Some(strs(&["abc", "a.c", "axxc"])));
    let res = restrict(Some(value()), &Selector::default(), &Some(like("a.c")));
    assert_eq!(res, Some(strs(&["a.c"])));
    let res = restrict(Some(value()), &Selector::default(), &Some(like("a_c")));
    assert_eq!(res, Some(strs(&["abc", "a.c"])));
    let line = || PqlValue::Array(vec![PqlValue::Str("a\nc".to_owned())]);
    let res = restrict(Some(line()), &Selector::default(), &Some(like("a_c")));
    assert_eq!(res, Some(line()));
}

#[test]
fn like_on_prefix() {
    let value = parse("['inet', 'inet6', 'link']");
    let cond = WhereCond::Like { expr: Expr::default(), right: "inet%".to_owned() };
    let res = restrict(Some(value), &Selector::default(), &Some(cond));
    assert_eq!(res, Some(parse("['inet', 'inet6']")));
}

#[test]
fn equality_keeps_equal_scalars() {
    let value = parse("[{'n': 1}, {'n': 2}, {'n': 1}, {'m': 1}]");
    let cond = WhereCond::Eq { expr: Expr::default(), right: PqlValue::Int(1) };
    let res = restrict(Some(value), &Selector::from_path("n"), &Some(cond));
    assert_eq!(res, Some(parse("[{'n': 1}, {'n': 1}]")));
}

#[test]
fn integer_and_float_are_not_equal() {
    let value = parse("[6, 6.0]");
    let cond = WhereCond::Eq { expr: Expr::default(), right: PqlValue::Int(6) };
    let res = restrict(Some(value), &Selector::default(), &Some(cond));
    assert_eq!(res, Some(parse("[6]")));
}

#[test]
fn nothing_kept_is_none() {
    let value = parse("[false, null]");
    assert_eq!(restrict(Some(value), &Selector::default(), &None), None);
    assert_eq!(restrict(None, &Selector::default(), &None), None);
}

#[test]
fn filter_errors_are_reported() {
    let obj = parse("{'a': 1}");
    assert_eq!(
        try_restrict(Some(obj), &Selector { data: vec![] }, &None),
        Ok(Some(parse("{'a': 1}")))
    );
    assert_eq!(try_restrict(Some(parse("3")), &Selector::default(), &None), Ok(Some(parse("3"))));
    let like = WhereCond::Like { expr: Expr::default(), right: "%a%".to_owned() };
    assert_eq!(
        try_restrict(Some(parse("3")), &Selector::default(), &Some(like)),
        Err(FilterError::NotAString)
    );
    let paren = WhereCond::Like { expr: Expr::default(), right: "(%".to_owned() };
    let s = |t: &str| PqlValue::Str(t.to_owned());
    assert_eq!(try_restrict(Some(s("x")), &Selector::default(), &Some(paren)), Ok(None));
    let paren = WhereCond::Like { expr: Expr::default(), right: "(%".to_owned() };
    assert_eq!(try_restrict(Some(s("(x")), &Selector::default(), &Some(paren)), Ok(Some(s("(x"))));
}

#[test]
fn floats_pass_like_and_objects_end_paths() {
    let like = || Some(WhereCond::Like { expr: Expr::default(), right: "%z%".to_owned() });
    assert_eq!(restrict(Some(parse("[2.5, 'abc', 'xzy']")), &Selector::default(), &like()), Some(parse("[2.5, 'xzy']")));
    let value = parse("[{'a': {'b': 1}}, {'a': 2.5}, {'a': 'q'}]");
    assert_eq!(
        restrict(Some(value), &Selector::from_path("a"), &like()),
        Some(parse("[{'a': {'b': 1}}, {'a': 2.5}]"))
    );
}
