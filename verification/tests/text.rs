//! Texts, numbers and ordered collections, held against the standard library.

use debian_repo::number::{parse_u64, parse_usize, write_u64};
use debian_repo::ordered::{TextMap, TextSet};
use debian_repo::sort::{sort_items, text_comes_before};
use debian_repo::text::{
    chars_of, compare_text, find_text_of, holds_text, is_lowered, is_white_char, join_texts,
    lines_of, same_ignoring_ascii_case, split_at_char, strip_end_of, strip_start_of, text_of,
    to_ascii_lower, trim_char_of, trim_end_of, trim_of, trim_start_char_of, trim_start_of,
    trim_start_text_of, words_of, TextOrder,
};

fn texts(pieces: Vec<&[char]>) -> Vec<String> {
    pieces.into_iter().map(text_of).collect()
}

const SAMPLES: [&str; 14] = [
    "",
    " ",
    "a",
    " a b\tc ",
    "a\nb\r\nc",
    "a\n\nb\n",
    "\r\n",
    "a\r",
    ",a,,b,",
    "Depends: libc6 (>= 2.36), zlib1g",
    "\u{3000}wide\u{2028}space\u{85}",
    "straße ÄÖÜ",
    "//x//",
    "a\rb\nc\r\r\n",
];

#[test]
fn white_space_is_that_of_unicode() {
    for n in 0..=0x10ffff_u32 {
        if let Some(c) = char::from_u32(n) {
            assert_eq!(is_white_char(c), c.is_whitespace(), "U+{n:04X}");
        }
    }
}

#[test]
fn lower_case_of_field_names_is_that_of_unicode() {
    for n in 0..=0x10ffff_u32 {
        if let Some(c) = char::from_u32(n) {
            let lowered: String = c.to_lowercase().collect();
            for word in ["k", "s", "i", "a", "-", "z"] {
                assert_eq!(is_lowered(&[c], word), lowered == word, "U+{n:04X}");
            }
        }
    }
    assert!(is_lowered(&chars_of("PACKAGE"), "package"));
    assert!(!is_lowered(&chars_of("Package-List"), "package"));
}

#[test]
fn cutting_agrees_with_the_standard_library() {
    for s in SAMPLES {
        let chars = chars_of(s);
        assert_eq!(text_of(trim_of(&chars)), s.trim());
        assert_eq!(text_of(trim_start_of(&chars)), s.trim_start());
        assert_eq!(text_of(trim_end_of(&chars)), s.trim_end());
        assert_eq!(text_of(trim_char_of(&chars, '/')), s.trim_matches('/'));
        assert_eq!(
            text_of(trim_start_char_of(&chars, '/')),
            s.trim_start_matches('/')
        );
        assert_eq!(
            text_of(trim_start_text_of(&chars, "./")),
            s.trim_start_matches("./")
        );
        assert_eq!(
            texts(words_of(&chars)),
            s.split_whitespace().collect::<Vec<_>>()
        );
        assert_eq!(texts(lines_of(&chars)), s.lines().collect::<Vec<_>>());
        assert_eq!(
            texts(split_at_char(&chars, ',')),
            s.split(',').collect::<Vec<_>>()
        );
        assert_eq!(to_ascii_lower(&chars), s.to_ascii_lowercase());
        assert_eq!(
            strip_start_of(&chars, "a").map(text_of).as_deref(),
            s.strip_prefix("a")
        );
        assert_eq!(
            strip_end_of(&chars, "\n").map(text_of).as_deref(),
            s.strip_suffix("\n")
        );
        for t in SAMPLES {
            assert_eq!(holds_text(&chars, t), s.contains(t));
            assert_eq!(same_ignoring_ascii_case(s, t), s.eq_ignore_ascii_case(t));
            assert_eq!(text_comes_before(s, t), s < t);
            assert_eq!(compare_text(s, t) == TextOrder::Same, s == t);
        }
    }
    let chars = chars_of("attachment; filename=x");
    assert_eq!(find_text_of(&chars, "filename="), Some(12));
    assert_eq!(
        join_texts(&["a".to_string(), "b".to_string()], ", "),
        "a, b"
    );
}

#[test]
fn numbers_agree_with_the_standard_library() {
    for s in [
        "",
        "0",
        "00",
        "42",
        "+7",
        "-7",
        "+",
        " 1",
        "1 ",
        "1_000",
        "18446744073709551615",
        "18446744073709551616",
        "99999999999999999999999",
        "٣",
    ] {
        assert_eq!(parse_u64(&chars_of(s)), s.parse::<u64>().ok(), "{s:?}");
        assert_eq!(parse_usize(&chars_of(s)), s.parse::<usize>().ok(), "{s:?}");
    }
    for n in [0, 9, 10, 311_296, u64::MAX] {
        assert_eq!(write_u64(n), n.to_string());
        assert_eq!(parse_u64(&chars_of(&write_u64(n))), Some(n));
    }
}

#[test]
fn set_is_ascending_and_holds_each_text_once() {
    let mut set = TextSet::new();
    assert!(set.is_empty());
    assert!(set.insert("main".to_string()));
    assert!(set.insert("contrib".to_string()));
    assert!(!set.insert("main".to_string()));
    assert_eq!(set.len(), 2);
    assert!(set.contains("contrib"));
    assert!(!set.contains("universe"));
    assert_eq!(
        set.items(),
        &vec!["contrib".to_string(), "main".to_string()]
    );
    let again = TextSet::of(&vec![
        "main".to_string(),
        "contrib".to_string(),
        "main".to_string(),
    ]);
    assert_eq!(again.items(), set.items());
}

#[test]
fn map_gives_back_what_was_stored_and_leaves_the_rest() {
    let mut map: TextMap<String> = TextMap::new();
    map.insert("b".to_string(), "2".to_string());
    map.insert("a".to_string(), "1".to_string());
    map.insert("b".to_string(), "3".to_string());
    assert_eq!(map.len(), 2);
    assert_eq!(map.key_at(0), "a");
    assert_eq!(map.value_at(1), "3");
    assert_eq!(map.get("b"), Some(&"3".to_string()));
    assert_eq!(map.get("a"), Some(&"1".to_string()));
    assert!(map.contains_key("a"));
    assert_eq!(map.remove("a"), Some("1".to_string()));
    assert_eq!(map.remove("a"), None);
    assert_eq!(map.get("b"), Some(&"3".to_string()));
    assert!(!map.is_empty());
}

#[test]
fn sorting_keeps_all_items_in_order() {
    let items: Vec<String> = ["b", "a", "c", "a", ""].map(str::to_string).to_vec();
    let mut expected = items.clone();
    expected.sort();
    assert_eq!(sort_items(items), expected);
}
