use pacquet_package_manager::json::{
    Json, field_names, find_field, json_string_map, json_text_entries,
};

fn s(text: &str) -> String {
    text.to_string()
}

fn texts(list: &[&str]) -> Vec<String> {
    list.iter().map(|text| text.to_string()).collect()
}

fn pairs(list: &[(&str, &str)]) -> Vec<(String, String)> {
    list.iter().map(|(a, b)| (a.to_string(), b.to_string())).collect()
}

fn obj(fields: Vec<(&str, Json)>) -> Json {
    Json::Object(fields.into_iter().map(|(name, value)| (name.to_string(), value)).collect())
}

fn txt(text: &str) -> Json {
    Json::Text(text.to_string())
}

#[test]
fn fields_are_read() {
    let value = obj(vec![
        ("b", txt("2")),
        ("a", txt("1")),
        ("n", Json::Number(s("3"))),
        ("t", Json::Bool(true)),
    ]);
    assert_eq!(value.get("a").and_then(|field| field.as_str()), Some("1"));
    assert_eq!(value.get("t").and_then(|field| field.as_bool()), Some(true));
    assert!(value.get("x").is_none());
    assert!(txt("a").get("a").is_none());
    let Json::Object(fields) = &value else { panic!("expected an object") };
    assert_eq!(find_field(fields, "n"), Some(2));
    assert_eq!(field_names(fields), texts(&["a", "b", "n", "t"]));
    assert_eq!(json_text_entries(Some(&value)), pairs(&[("b", "2"), ("a", "1")]));
    assert_eq!(json_string_map(Some(&value)).len(), 2);
    assert_eq!(json_string_map(None).len(), 0);
}

#[test]
fn of_two_fields_with_one_name_the_first_counts() {
    let value = obj(vec![("a", txt("1")), ("a", txt("2"))]);
    assert_eq!(value.get("a").and_then(|field| field.as_str()), Some("1"));
    assert_eq!(json_string_map(Some(&value)).get_text("a"), Some(&s("1")));
}
