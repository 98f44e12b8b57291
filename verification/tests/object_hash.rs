use pacquet_package_manager::json::Json;
use pacquet_package_manager::object_hash::{
    hash_object_nullable_with_prefix, object_hash_serialize_json, serialize_array_of_strings,
    serialize_string_token, text_checksum,
};

fn s(text: &str) -> String {
    text.to_string()
}

fn texts(list: &[&str]) -> Vec<String> {
    list.iter().map(|text| text.to_string()).collect()
}

fn obj(fields: Vec<(&str, Json)>) -> Json {
    Json::Object(fields.into_iter().map(|(name, value)| (name.to_string(), value)).collect())
}

fn txt(text: &str) -> Json {
    Json::Text(text.to_string())
}

fn text_obj(fields: &[(&str, &str)]) -> Json {
    Json::Object(
        fields.iter().map(|(name, text)| (name.to_string(), Json::Text(text.to_string()))).collect(),
    )
}

fn number(digits: &str) -> Json {
    Json::Number(s(digits))
}

#[test]
fn package_extensions_checksum_matches_pnpm_object_hash_simple_case() {
    let value = obj(vec![(
        "is-positive",
        obj(vec![("dependencies", text_obj(&[("@pnpm.e2e/bar", "100.1.0")]))]),
    )]);
    let checksum = hash_object_nullable_with_prefix(Some(&value)).expect("checksum exists");
    assert_eq!(checksum, "sha256-HZEpjtRdr7gJfO0V6YoFDfxWmaw3anoE1/tQQbzas+E=");
}

#[test]
fn package_extensions_checksum_matches_pnpm_object_hash_array_case() {
    let value = obj(vec![
        ("a", Json::List(vec![number("3"), number("1"), number("2")])),
        (
            "b",
            Json::List(vec![
                obj(vec![("x", number("2")), ("y", number("1"))]),
                obj(vec![("y", number("1")), ("x", number("2"))]),
            ]),
        ),
    ]);
    let checksum = hash_object_nullable_with_prefix(Some(&value)).expect("checksum exists");
    assert_eq!(checksum, "sha256-fWykAxu8ur0i18o5r+cTdIb5mxx4Rzd75UKVAW44mHM=");
}

#[test]
fn values_are_written_out() {
    assert_eq!(serialize_string_token("ab"), "string:2:ab");
    assert_eq!(serialize_string_token("\u{e9}"), "string:2:\u{e9}");
    assert_eq!(serialize_array_of_strings(&texts(&["a", "bc"])), "array:2:string:1:astring:2:bc");
    let value = obj(vec![
        ("b", Json::List(vec![Json::Bool(true)])),
        ("a", Json::List(vec![Json::Null, number("1")])),
    ]);
    assert_eq!(
        object_hash_serialize_json(&value),
        "object:2:string:1:a:array:2:array:2:string:4:Nullstring:8:number:1,string:1:b:array:1:bool:true,"
    );
}

#[test]
fn order_does_not_count() {
    let one = obj(vec![("a", number("1")), ("b", Json::List(vec![txt("x"), txt("y")]))]);
    let two = obj(vec![("b", Json::List(vec![txt("y"), txt("x")])), ("a", number("1"))]);
    assert_eq!(
        hash_object_nullable_with_prefix(Some(&one)),
        hash_object_nullable_with_prefix(Some(&two))
    );
    assert_eq!(hash_object_nullable_with_prefix(Some(&obj(vec![]))), None);
    assert_eq!(hash_object_nullable_with_prefix(Some(&txt("x"))), None);
    assert_eq!(hash_object_nullable_with_prefix(None), None);
}

#[test]
fn checksums_are_those_of_the_text() {
    assert_eq!(text_checksum("abc"), "sha256-ungWv48Bz+pBQUDeXa4iI7ADYaOWF3qctBD/YfIAFa0=");
}

#[test]
fn order_does_not_count_at_any_depth() {
    let inner = |swap: bool| {
        let mut items = vec![txt("x"), Json::List(vec![Json::Bool(true), Json::Null]), txt("z")];
        if swap {
            items.reverse();
            if let Json::List(list) = &mut items[1] {
                list.reverse();
            }
        }
        Json::List(items)
    };
    let one = obj(vec![("a", inner(false)), ("b", Json::List(vec![inner(false), txt("t")]))]);
    let other = obj(vec![("b", Json::List(vec![txt("t"), inner(true)])), ("a", inner(true))]);
    assert_eq!(object_hash_serialize_json(&one), object_hash_serialize_json(&other));
    assert_eq!(
        hash_object_nullable_with_prefix(Some(&one)),
        hash_object_nullable_with_prefix(Some(&other))
    );
    let different = obj(vec![("a", inner(false)), ("b", Json::List(vec![txt("t"), txt("t")]))]);
    assert_ne!(object_hash_serialize_json(&one), object_hash_serialize_json(&different));
}
