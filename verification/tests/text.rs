use pacquet_package_manager::text::{
    chars_of, decimal_text, find_char, find_text_from, has_char, has_first_char, has_prefix,
    has_suffix, has_text, is_less, join_texts, part_stands_at, repeat_char, replace_all,
    rfind_char, same_text, split_at_first, split_at_last, split_text, text_of, trim_blanks,
    trim_end, trim_end_matches, trim_start, trim_start_matches, utf8_len,
};

fn texts(list: &[&str]) -> Vec<String> {
    list.iter().map(|text| text.to_string()).collect()
}

use pacquet_package_manager::text;
#[test]
fn prefixes_and_suffixes_are_found() {
    assert!(has_prefix("npm:foo", "npm:"));
    assert!(!has_prefix("np", "npm:"));
    assert!(has_suffix("a.tgz", ".tgz"));
    assert!(!has_suffix("tgz", ".tgz"));
    assert!(has_text("a://b", "://"));
    assert!(!has_text("a:/b", "://"));
    assert!(has_char("a/b", '/'));
    assert!(has_first_char("@a", '@'));
    assert!(!has_first_char("", '@'));
    assert!(same_text("a", "a"));
    assert!(!same_text("a", "b"));
}

#[test]
fn texts_are_split_and_joined() {
    assert_eq!(split_at_first("a@b@c", '@'), Some(("a", "b@c")));
    assert_eq!(split_at_last("a@b@c", '@'), Some(("a@b", "c")));
    assert_eq!(split_at_first("abc", '@'), None);
    assert_eq!(find_char("a@b@c", '@'), Some(1));
    assert_eq!(rfind_char("a@b@c", '@'), Some(3));
    assert_eq!(split_text("/a//b", '/'), texts(&["", "a", "", "b"]));
    assert_eq!(split_text("", '/'), texts(&[""]));
    assert_eq!(join_texts(&texts(&["a", "b"]), ", "), "a, b");
    assert_eq!(join_texts(&texts(&[]), ", "), "");
}

#[test]
fn texts_are_trimmed_and_replaced() {
    assert_eq!(trim_end("a//", '/'), "a");
    assert_eq!(trim_start("vvx", 'v'), "x");
    assert_eq!(trim_end_matches("a.git.git", ".git"), "a");
    assert_eq!(trim_start_matches("././a", "./"), "a");
    assert_eq!(trim_blanks(" \t a b \n"), "a b");
    assert_eq!(text::replace("a/b", '/', "+"), "a+b");
    assert_eq!(replace_all("aXXbXXX", "XX", "-"), "a-b-X");
    assert_eq!(text::strip_prefix("npm:foo", "npm:"), Some("foo"));
    assert_eq!(repeat_char('+', 3), "+++");
}

#[test]
fn texts_are_ordered_and_measured() {
    assert!(is_less("a", "b"));
    assert!(is_less("a", "ab"));
    assert!(!is_less("a", "a"));
    assert!(is_less("Z", "a"));
    assert_eq!(utf8_len("aäß€"), 8);
    assert_eq!(decimal_text(0), "0");
    assert_eq!(decimal_text(1024), "1024");
    let chars = chars_of("abc");
    assert_eq!(text_of(&chars, 1, 3), "bc");
    assert_eq!(find_text_from(&chars, &chars_of("c"), 0), Some(2));
    assert!(part_stands_at(&chars, &chars_of("bc"), 1));
    assert_eq!(text::copy("abc"), "abc");
}
