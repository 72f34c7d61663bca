//! Texts, maps and sorting: held against what the standard library does.

use patterns::prefixes::Prefixes;
use patterns::sort::sort_by_key;
use patterns::text::{
    byte_count, char_width, chars_of, decimal, digit_text, is_whitespace, is_word, join, precedes,
    replace, same, slice, trimmed, trimmed_end, trimmed_start,
};
use patterns::text_map::TextMap;

const SAMPLES: [&str; 9] = [
    "",
    " ",
    "a",
    "  a b\t",
    "é",
    "\u{a0}\u{1f600} x\u{3000}\n",
    "aaaa",
    "\u{200b}a\u{feff}",
    "aAbB",
];

#[test]
fn white_space_is_that_of_unicode() {
    for code in 0..=0x10_ffff_u32 {
        if let Some(c) = char::from_u32(code) {
            assert_eq!(is_whitespace(c), c.is_whitespace(), "{code:x}");
            assert_eq!(char_width(c), c.len_utf8(), "{code:x}");
        }
    }
}

#[test]
fn trimming_agrees() {
    for text in SAMPLES {
        assert_eq!(trimmed(text), text.trim());
        assert_eq!(trimmed_start(text), text.trim_start());
        assert_eq!(trimmed_end(text), text.trim_end());
        assert_eq!(byte_count(text), text.len());
        assert_eq!(chars_of(text), text.chars().collect::<Vec<_>>());
    }
}

#[test]
fn slicing_agrees() {
    for text in SAMPLES {
        for from in 0..=text.len() + 1 {
            for to in 0..=text.len() + 1 {
                assert_eq!(slice(text, from, to), text.get(from..to), "{text:?}");
            }
        }
    }
}

#[test]
fn orders_agree() {
    for a in SAMPLES {
        for b in SAMPLES {
            assert_eq!(precedes(a, b), a < b, "{a:?} {b:?}");
            assert_eq!(same(a, b), a == b, "{a:?} {b:?}");
            assert_eq!(is_word(a, b), a.eq_ignore_ascii_case(b), "{a:?} {b:?}");
        }
    }
    assert!(is_word("NoNe", "none"));
    assert!(!is_word("É", "é"));
}

#[test]
fn replacing_agrees() {
    for text in ["", "aaaa", "xaxbax", "aéaé", "{e}{error}{error"] {
        for pattern in ["a", "aa", "éa", "{error}", "x"] {
            for by in ["", "a", "{error}", "é"] {
                assert_eq!(
                    replace(text, pattern, by),
                    text.replace(pattern, by),
                    "{text:?} {pattern:?} {by:?}"
                );
            }
        }
    }
}

#[test]
fn numbers_are_written_in_decimal() {
    for n in [0, 7, 9, 10, 99, 100, 1234567890, u64::MAX] {
        assert_eq!(decimal(n), n.to_string());
    }
    assert_eq!(digit_text(15), "f");
    assert_eq!(digit_text(0), "0");
}

#[test]
fn joining_agrees() {
    let parts: Vec<String> = ["a", "", "b"].iter().map(|p| (*p).to_owned()).collect();
    assert_eq!(join(&parts, ", "), parts.join(", "));
    assert_eq!(join(&Vec::new(), ", "), "");
}

#[test]
fn maps_keep_the_last_value_in_order_of_keys() {
    let mut map = TextMap::new();
    assert!(map.is_empty());
    for (key, value) in [("b", 1), ("é", 2), ("a", 3), ("b", 4), ("", 5)] {
        map.insert(key.to_owned(), value);
    }
    assert!(!map.is_empty());
    assert_eq!(map.len(), 4);
    assert_eq!(map.get("b"), Some(&4));
    assert_eq!(map.get("c"), None);
    assert!(map.contains_key("é"));
    assert!(!map.contains_key("e"));
    let entries: Vec<(&str, i32)> = (0..map.len())
        .map(|i| (map.key_at(i), *map.value_at(i)))
        .collect();
    assert_eq!(entries, vec![("", 5), ("a", 3), ("b", 4), ("é", 2)]);
}

#[test]
fn sorting_is_stable() {
    let items = vec![(2, 'a'), (0, 'b'), (2, 'c'), (1, 'd'), (0, 'e')];
    let mut want = items.clone();
    want.sort_by_key(|item| item.0);
    assert_eq!(sort_by_key(items), want);
    assert_eq!(sort_by_key(Vec::<(usize, char)>::new()), vec![]);
}

#[test]
fn prefixes_are_prepended() {
    let prefixes = Prefixes::new("q: ", "d: ");
    assert_eq!(prefixes.apply_query("x"), "q: x");
    assert_eq!(prefixes.apply_document("x"), "d: x");
    let raw = Prefixes::query_only("q: ");
    assert_eq!(raw.apply_document("x"), "x");
    assert_eq!(Prefixes::none().apply_query("x"), "x");
}
