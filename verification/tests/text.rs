use codex_fast::digest::lower_hex;
use codex_fast::paths::{
    basename, is_html_path, path_suffixes, posix_dirname, relative_to_root,
};
use codex_fast::text::{
    byte_slice, char_is_whitespace, chars_of, decimal_text, is_boundary, join, lines,
    parse_number, split, starts_with, str_eq, str_eq_ignore_case, str_less, trim, Text,
};
use codex_fast::text_map::{TextMap, TextSet};

#[test]
fn white_space_is_what_unicode_says() {
    for code in 0..=0x10ffffu32 {
        if let Some(c) = char::from_u32(code) {
            assert_eq!(char_is_whitespace(c), c.is_whitespace(), "{code:x}");
        }
    }
}

#[test]
fn texts_are_taken_apart_and_put_together() {
    assert_eq!(codex_fast::text::concat(&["a", "", "é"]), "aé");
    assert_eq!(join(&vec!["a", "b", "c"], ", "), "a, b, c");
    assert_eq!(join(&Vec::new(), ", "), "");
    assert_eq!(split("a//b", '/'), vec!["a", "", "b"]);
    assert_eq!(split("", '/'), vec![""]);
    assert_eq!(trim("\u{a0} x y\r\n"), "x y");
    assert_eq!(chars_of("é!"), vec!['é', '!']);
}

#[test]
fn lines_are_split_as_std_splits_them() {
    for text in ["", "\n", "a", "a\n", "a\r\nb\r", "\r\n\r\n", "a\rb\n\nc"] {
        assert_eq!(lines(text), text.lines().collect::<Vec<_>>(), "{text:?}");
    }
}

#[test]
fn bytes_and_characters_agree() {
    let text = "aé😀";
    assert_eq!(byte_slice(text, 1, 3), "é");
    assert!(is_boundary(text, 3));
    assert!(!is_boundary(text, 2));
    let chars = Text::new(text);
    assert_eq!(chars.len(), 3);
    assert_eq!(chars.offset(2), 3);
    assert_eq!(chars.slice(1, 3), "é😀");
    assert!(chars.matches_at(1, "é"));
}

#[test]
fn numbers_are_read_and_written() {
    assert_eq!(decimal_text(0), "0");
    assert_eq!(decimal_text(u64::MAX), "18446744073709551615");
    let read = |text: &str, radix: u32, max: u64| {
        let chars = chars_of(text);
        parse_number(&chars, 0, chars.len(), radix, max)
    };
    assert_eq!(read("+12", 10, 100), Some(12));
    assert_eq!(read("ff", 16, 255), Some(255));
    assert_eq!(read("256", 10, 255), None);
    assert_eq!(read("", 10, 255), None);
    assert_eq!(read("-1", 10, 255), None);
}

#[test]
fn texts_are_ordered_as_std_orders_them() {
    let all = ["", "a", "aa", "b", "é", "z", "😀"];
    for a in all {
        for b in all {
            assert_eq!(str_less(a, b), a < b);
            assert_eq!(str_eq(a, b), a == b);
        }
    }
    assert!(starts_with("app://x", "app://"));
    assert!(str_eq_ignore_case(".JS", ".js"));
    assert!(!str_eq_ignore_case("É", "é"));
}

#[test]
fn maps_and_sets_keep_their_keys_in_order() {
    let mut map = TextMap::new();
    assert_eq!(map.insert("b".to_owned(), 1), None);
    assert_eq!(map.insert("a".to_owned(), 2), None);
    assert_eq!(map.insert("b".to_owned(), 3), Some(1));
    assert_eq!(map.len(), 2);
    assert_eq!((map.key_at(0), *map.value_at(0)), ("a", 2));
    assert_eq!(map.replace_at(1, 4), 3);
    assert_eq!(map.get("b"), Some(&4));
    assert_eq!(map.remove("a"), Some(2));
    assert_eq!(map.remove("a"), None);
    assert!(!map.contains_key("a"));

    let mut set = TextSet::new();
    assert!(set.insert("x"));
    assert!(!set.insert("x"));
    assert!(set.insert("w"));
    assert_eq!(set.copy().members(), vec!["w", "x"]);
    assert!(set.remove("w"));
    assert_eq!(set.at(0), "x");
}

#[test]
fn paths_have_names_directories_and_suffixes() {
    assert_eq!(path_suffixes("a/b/c"), vec!["a/b/c", "b/c", "c"]);
    assert_eq!(basename("a/b"), "b");
    assert_eq!(posix_dirname("a/b"), "a");
    assert_eq!(relative_to_root("a", "a/b"), Some("b"));
    assert_eq!(relative_to_root("a", "ab/c"), None);
    assert!(is_html_path("webview/.HTML"));
    assert!(!is_html_path("a.js"));
}

#[test]
fn bytes_are_written_in_lower_hex() {
    assert_eq!(lower_hex(&[0, 0x1f, 0xab]), "001fab");
}
