use workbench::key_set::KeySet;
use workbench::text::{
    ascii_lowercased, chars_of, decimal_text, find_text, has_prefix, has_text, lines_of, same_text,
    split_text, text_before, text_between, trimmed, white_space,
};

fn texts(list: &[&str]) -> Vec<String> {
    list.iter().map(|text| text.to_string()).collect()
}

#[test]
fn texts_are_compared_as_str_does() {
    let samples = ["", "a", "ab", "b", "\u{e9}", "z", "\u{ffff}", "\u{10000}", "A"];
    for a in samples {
        for b in samples {
            assert_eq!(same_text(a, b), a == b);
            assert_eq!(text_before(a, b), a < b);
            assert_eq!(has_text(a, b), a.contains(b));
            assert_eq!(has_prefix(a, b), a.starts_with(b));
        }
    }
}

#[test]
fn texts_are_split_as_str_does() {
    for sample in ["", ",", "a,b", ",a,,b,", "no"] {
        let expected: Vec<String> = sample.split(',').map(str::to_owned).collect();
        assert_eq!(split_text(sample, ','), expected);
        assert_eq!(expected.join(","), sample);
    }
}

#[test]
fn lines_are_read_as_str_does() {
    for sample in ["", "\n", "a", "a\n", "a\r\nb", "\r", "a\r", "\n\na\n", "a\r\r\n"] {
        let expected: Vec<String> = sample.lines().map(str::to_owned).collect();
        assert_eq!(lines_of(sample), expected);
    }
}

#[test]
fn texts_are_trimmed_as_str_does() {
    for sample in ["", "  ", " a b ", "\t\u{a0}x\u{3000}\n", "\u{200b}x", "\u{85}y\u{2028}"] {
        assert_eq!(trimmed(sample), sample.trim());
    }
    for n in 0..0x3100u32 {
        if let Some(c) = char::from_u32(n) {
            assert_eq!(white_space(c), c.is_whitespace());
        }
    }
}

#[test]
fn only_ascii_letters_are_lowered() {
    for sample in ["", "AbC-Z[", "\u{c9}A", "a1"] {
        assert_eq!(ascii_lowercased(sample), sample.to_ascii_lowercase());
    }
}

#[test]
fn numbers_are_written_in_decimal() {
    for n in [0, 7, 10, 99, 100, 12345, u64::MAX] {
        assert_eq!(decimal_text(n), n.to_string());
    }
}

#[test]
fn texts_are_found_from_a_place_on() {
    let text = chars_of("abcabc");
    let needle = chars_of("bc");
    assert_eq!(find_text(&text, &needle, 0), Some(1));
    assert_eq!(find_text(&text, &needle, 2), Some(4));
    assert_eq!(find_text(&text, &needle, 5), None);
    assert_eq!(text_between(&text, 1, 4), "bca");
}

#[test]
fn key_sets_are_sorted_and_hold_each_key_once() {
    let mut a = KeySet::new();
    a.extend(&texts(&["c", "a", "b", "a"]));
    assert_eq!(a.keys(), &texts(&["a", "b", "c"]));
    assert!(a.contains("b") && !a.contains("d"));
    let mut b = KeySet::new();
    b.insert("d".to_string());
    b.insert("b".to_string());
    assert_eq!(a.union(&b).keys(), &texts(&["a", "b", "c", "d"]));
    assert_eq!(a.difference(&b), texts(&["a", "c"]));
    assert_eq!(a.intersection(&b), texts(&["b"]));
    assert_eq!(a.copy().keys(), a.keys());
}
