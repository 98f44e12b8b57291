use pacquet_package_manager::sorted::{insert_in_order, sort_list, sorted_keys, sorted_texts};
use pacquet_package_manager::table::TextMap;

fn texts(list: &[&str]) -> Vec<String> {
    list.iter().map(|text| text.to_string()).collect()
}

fn map(entries: &[(&str, &str)]) -> TextMap<String> {
    let mut map = TextMap::new();
    for (key, value) in entries {
        map.insert(key.to_string(), value.to_string());
    }
    map
}

#[test]
fn texts_are_sorted_without_repetition() {
    assert_eq!(sorted_texts(&texts(&["b", "a", "b"])), texts(&["a", "b"]));
    assert_eq!(sort_list(&texts(&["b", "a", "b"])), texts(&["a", "b", "b"]));
    assert_eq!(sorted_keys(&map(&[("b", "1"), ("a", "2")])), texts(&["a", "b"]));
    let mut list = texts(&["a", "c"]);
    insert_in_order(&mut list, "b");
    insert_in_order(&mut list, "a");
    assert_eq!(list, texts(&["a", "b", "c"]));
}
