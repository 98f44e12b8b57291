use pacquet_package_manager::patterns::{matches_patterns, wildcard_match};

fn texts(list: &[&str]) -> Vec<String> {
    list.iter().map(|text| text.to_string()).collect()
}

#[test]
fn stars_stand_for_anything() {
    assert!(wildcard_match("eslint", "*"));
    assert!(wildcard_match("eslint-plugin", "eslint*"));
    assert!(wildcard_match("eslint-plugin-x", "eslint*-x"));
    assert!(wildcard_match("a-b-c", "*b*"));
    assert!(!wildcard_match("eslint", "tslint"));
    assert!(!wildcard_match("eslint", "eslint-*"));
    assert!(wildcard_match("eslint", "eslint"));
}

#[test]
fn a_star_alone_lets_everything_pass() {
    assert!(matches_patterns("anything", &texts(&["*"])));
    assert!(!matches_patterns("anything", &texts(&[])));
}

#[test]
fn a_negated_pattern_wins_at_the_end() {
    assert!(!matches_patterns("eslint", &texts(&["*", "!eslint"])));
    assert!(matches_patterns("eslint", &texts(&["!eslint", "*"])));
    assert!(matches_patterns("lodash", &texts(&["*", "!eslint"])));
}
