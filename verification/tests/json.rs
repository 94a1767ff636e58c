use piqel::models::JsonValue;
use piqel::value::PqlFloat;

fn s(x: &str) -> JsonValue {
    JsonValue::Str(x.to_owned())
}

fn obj(entries: &[(&str, JsonValue)]) -> JsonValue {
    JsonValue::Object(entries.iter().map(|(k, v)| (k.to_string(), v.copy())).collect())
}

fn person(name: &str, title: &str) -> JsonValue {
    obj(&[("name", s(name)), ("title", s(title)), ("id", JsonValue::Num(PqlFloat { negative: false, digits: vec![3], exponent: 0 }))])
}

#[test]
fn get_and_get_path() {
    let v = obj(&[("hr", obj(&[("boss", person("Bob", "Dev Mgr"))]))]);
    assert_eq!(v.copy().get("hr").unwrap().get("boss"), Some(person("Bob", "Dev Mgr")));
    assert_eq!(v.copy().get_path(&["hr", "boss", "name"]), Some(s("Bob")));
    assert_eq!(v.copy().get_path(&["hr", "nobody", "name"]), None);
    assert_eq!(v.copy().get("missing"), None);
    assert_eq!(s("x").get("hr"), None);
}

#[test]
fn first_entry_of_a_key_wins() {
    let v = JsonValue::Object(vec![("a".to_owned(), s("first")), ("a".to_owned(), s("second"))]);
    assert_eq!(v.get("a"), Some(s("first")));
}

#[test]
fn filter_keeps_listed_keys() {
    let p = person("Bob", "Dev Mgr");
    assert_eq!(
        p.copy().filter(&["title", "name", "title", "nothing"]),
        Some(obj(&[("title", s("Dev Mgr")), ("name", s("Bob"))]))
    );
    assert_eq!(p.filter(&[]), Some(obj(&[])));
    assert_eq!(s("x").filter(&["name"]), None);
}

#[test]
fn filter_map_over_an_array() {
    let a = JsonValue::Array(vec![person("Bob", "Dev Mgr"), s("skip"), person("Sue", "Eng")]);
    assert_eq!(
        a.filter_map(&["name"]),
        Some(JsonValue::Array(vec![obj(&[("name", s("Bob"))]), obj(&[("name", s("Sue"))])]))
    );
    assert_eq!(person("Bob", "Dev Mgr").filter_map(&["name"]), None);
}
