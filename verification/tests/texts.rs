use bundler_core::path::{join_path, parent_directory};
use bundler_core::text::{
    chars_of, contains_subtext, contains_text, cut_at_last, ends_with, join_texts, replace_each, same_text,
    split_lines, starts_with,
};
use bundler_core::text_map::TextMap;

#[test]
fn lines_are_split_as_the_standard_library_splits_them() {
    let samples = [
        "",
        "\n",
        "a",
        "a\n",
        "a\nb",
        "a\r\nb\r\n",
        "a\n\nb",
        "\n\n",
        "a\r",
        "a\r\r\nb",
        "\r\n",
        "x\ny\n\n",
        "caf\u{e9}\n\u{4f60}\u{597d}\r\nz",
    ];
    for sample in samples {
        let expected: Vec<String> = sample.lines().map(|l| l.to_string()).collect();
        assert_eq!(split_lines(sample), expected, "for {:?}", sample);
    }
}

#[test]
fn texts_are_joined_with_the_separator_between_them() {
    assert_eq!(join_texts(&vec![], ", "), "");
    assert_eq!(join_texts(&vec!["a".to_string()], ", "), "a");
    assert_eq!(join_texts(&vec!["a".to_string(), "".to_string(), "c".to_string()], ", "), "a, , c");
}

#[test]
fn prefixes_suffixes_and_subtexts() {
    assert!(starts_with("entry:/a", "entry:"));
    assert!(!starts_with("entr", "entry:"));
    assert!(!starts_with("/entry:", "entry:"));
    assert!(starts_with("abc", ""));
    assert!(ends_with("config.mts", ".mts"));
    assert!(!ends_with("ts", ".ts"));
    assert!(!ends_with("a.tsx", ".ts"));
    assert!(contains_subtext("export default defineConfig({})", "defineConfig"));
    assert!(!contains_subtext("defineConfi", "defineConfig"));
    assert!(contains_subtext("abc", ""));
    assert!(contains_subtext("abc", "c"));
    assert!(same_text("a", "a"));
    assert!(!same_text("a", "b"));
    assert_eq!(chars_of("a\u{e9}b"), vec!['a', '\u{e9}', 'b']);
    assert!(contains_text(&vec!["x".to_string(), "y".to_string()], &"y".to_string()));
    assert!(!contains_text(&vec!["x".to_string()], &"y".to_string()));
}

#[test]
fn cutting_and_replacing() {
    assert_eq!(cut_at_last("f(a)(b) tail", ')'), "f(a)(b");
    assert_eq!(cut_at_last("no paren", ')'), "no paren");
    assert_eq!(cut_at_last(")", ')'), "");
    assert_eq!(replace_each("{'a': 'b'}", '\'', "\""), "{\"a\": \"b\"}");
    assert_eq!(replace_each("abc", 'x', "y"), "abc");
    assert_eq!(replace_each("xx", 'x', ""), "");
    assert_eq!(replace_each("\u{e9}x\u{e9}", 'x', "--"), "\u{e9}--\u{e9}");
}

#[test]
fn directories_and_joined_paths() {
    assert_eq!(parent_directory("/p/src/main.js"), "/p/src");
    assert_eq!(parent_directory("/main.js"), "/");
    assert_eq!(parent_directory("main.js"), "");
    assert_eq!(parent_directory(""), "");
    assert_eq!(join_path("/p/src", "./a.js"), "/p/src/./a.js");
    assert_eq!(join_path("/p/src/", "a.js"), "/p/src/a.js");
    assert_eq!(join_path("", "a.js"), "a.js");
    assert_eq!(join_path("/p", "/abs/a.js"), "/abs/a.js");
    assert_eq!(join_path("/p", ""), "/p/");
}

#[test]
fn text_map_replaces_in_place_and_appends_in_order() {
    let mut map: TextMap<u32> = TextMap::new();
    assert_eq!(map.len(), 0);
    map.insert("b".to_string(), 1);
    map.insert("a".to_string(), 2);
    map.insert("b".to_string(), 3);
    assert_eq!(map.len(), 2);
    assert_eq!(map.key_at(0), "b");
    assert_eq!(*map.value_at(0), 3);
    assert_eq!(map.key_at(1), "a");
    assert_eq!(map.get("a"), Some(&2));
    assert_eq!(map.get("c"), None);
}
