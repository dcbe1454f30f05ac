use warmer::text::{
    chars_eq, chars_lt, chars_of, joined, contains_char, remove_all, sort_dedup, starts_with,
    starts_with_at, str_eq, str_starts_with, string_from, string_of, trim_end_char,
};

fn strings(xs: &[&str]) -> Vec<String> {
    xs.iter().map(|x| x.to_string()).collect()
}

fn cs(s: &str) -> Vec<char> {
    s.chars().collect()
}

#[test]
fn characters_and_strings_convert_both_ways() {
    assert_eq!(chars_of("aé€😀"), vec!['a', 'é', '€', '😀']);
    assert_eq!(chars_of(""), Vec::<char>::new());
    assert_eq!(string_of(&vec!['o', 'k', '✓']), "ok✓");
    assert_eq!(string_of(&Vec::new()), "");
    assert_eq!(string_from(&cs("hello"), 2), "llo");
    assert_eq!(string_from(&cs("hello"), 5), "");
    assert_eq!(joined("ab", "cd"), "abcd");
}

#[test]
fn sort_dedup_orders_as_strings_do() {
    let input = strings(&["b", "a", "", "ab", "a", "B", "é", "z", "aa", "b", "😀", "~"]);
    let mut expected = input.clone();
    expected.sort();
    expected.dedup();
    assert_eq!(sort_dedup(&input), expected);
    assert_eq!(sort_dedup(&Vec::new()), Vec::<String>::new());
    assert_eq!(sort_dedup(&strings(&["x", "x"])), strings(&["x"]));
}

#[test]
fn string_order_is_by_code_point() {
    let samples = ["", "a", "ab", "b", "A", "é", "e", "😀", "\u{ffff}", "a\u{0}", "aa"];
    for a in samples {
        for b in samples {
            assert_eq!(chars_lt(&cs(a), &cs(b)), a < b, "{:?} < {:?}", a, b);
            assert_eq!(chars_eq(&cs(a), &cs(b)), a == b);
            assert_eq!(str_eq(a, b), a == b);
        }
    }
}

#[test]
fn prefixes() {
    assert!(starts_with(&cs("http://x"), &cs("http://")));
    assert!(!starts_with(&cs("http:/"), &cs("http://")));
    assert!(starts_with(&cs("x"), &cs("")));
    assert!(starts_with_at(&cs("abcabc"), 3, &cs("abc")));
    assert!(!starts_with_at(&cs("abcabc"), 4, &cs("abc")));
    assert!(starts_with_at(&cs("abc"), 3, &cs("")));
    assert!(str_starts_with("data:image/png", "data:image/"));
    assert!(!str_starts_with("Data:image/png", "data:image/"));
}

#[test]
fn remove_all_agrees_with_replace() {
    let samples = ["", "aaa", "abab", "xabay", "aabab", "ababa", "http://http://x", "hhttp://ttp://"];
    let patterns = ["a", "ab", "aba", "http://", "zz"];
    for s in samples {
        for p in patterns {
            assert_eq!(string_of(&remove_all(&cs(s), &cs(p))), s.replace(p, ""), "{:?} - {:?}", s, p);
        }
        assert_eq!(string_of(&remove_all(&cs(s), &cs(""))), s);
    }
}

#[test]
fn trim_end_agrees_with_trim_end_matches() {
    for s in ["", "/", "///", "a/", "a//", "/a", "a/b/", "abc"] {
        assert_eq!(string_of(&trim_end_char(&cs(s), '/')), s.trim_end_matches('/'));
    }
}

#[test]
fn contains_character() {
    assert!(contains_char(&cs("a.b"), '.'));
    assert!(!contains_char(&cs("ab"), '.'));
    assert!(!contains_char(&cs(""), '.'));
}
