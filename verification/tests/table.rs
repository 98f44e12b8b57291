use pacquet_package_manager::table::{TextMap, no_marks};
use pacquet_package_manager::value::list_contains;

fn s(text: &str) -> String {
    text.to_string()
}

fn texts(list: &[&str]) -> Vec<String> {
    list.iter().map(|text| text.to_string()).collect()
}

fn map(entries: &[(&str, &str)]) -> TextMap<String> {
    let mut map = TextMap::new();
    for (key, value) in entries {
        map.insert(key.to_string(), value.to_string());
    }
    map
}

fn entries(map: &TextMap<String>) -> Vec<(String, String)> {
    (0..map.len()).map(|i| (map.key_at(i).clone(), map.value_at(i).clone())).collect()
}

fn pairs(list: &[(&str, &str)]) -> Vec<(String, String)> {
    list.iter().map(|(a, b)| (a.to_string(), b.to_string())).collect()
}

#[test]
fn a_table_keeps_one_value_for_each_key() {
    let mut table = map(&[("a", "1"), ("b", "2")]);
    table.insert(s("a"), s("3"));
    assert_eq!(entries(&table), pairs(&[("a", "3"), ("b", "2")]));
    assert_eq!(table.get(&s("b")), Some(&s("2")));
    assert_eq!(table.get_text("c"), None);
    assert_eq!(table.position(&s("b")), Some(1));
    assert!(table.contains_key(&s("a")));
    assert!(!table.contains_text("c"));
}

#[test]
fn tables_are_put_together() {
    let mut over = map(&[("a", "1"), ("b", "2")]);
    over.extend(&map(&[("b", "3"), ("c", "4")]));
    assert_eq!(entries(&over), pairs(&[("a", "1"), ("b", "3"), ("c", "4")]));
    let mut under = map(&[("a", "1"), ("b", "2")]);
    under.fill(&map(&[("b", "3"), ("c", "4")]));
    assert_eq!(entries(&under), pairs(&[("a", "1"), ("b", "2"), ("c", "4")]));
    assert!(map(&[("b", "2")]).is_part_of(&under));
    assert!(!map(&[("b", "3")]).is_part_of(&under));
    let mut marks = no_marks(3);
    marks[1] = true;
    assert_eq!(entries(&under.keep(&marks)), pairs(&[("b", "2")]));
    assert!(list_contains(&texts(&["a", "b"]), "b"));
    assert!(!list_contains(&texts(&["a", "b"]), "c"));
}
