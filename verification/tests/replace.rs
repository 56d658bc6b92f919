use diag_normalize::replace::{replace_all, replace_case_insensitive, to_forward_slashes};
use diag_normalize::text::{
    find_literal, from_chars, has_literal_at, is_literal, is_match_at, leading_space_len,
    to_chars, trimmed_end_len,
};

const TEXTS: [&str; 12] = [
    "",
    "a",
    "abc",
    "aaa",
    "aaaa",
    "a FOO b foo c",
    "FooFOOfoo",
    "x/tmp/Proj/y/TMP/PROJ/z",
    "C:\\proj\\src\\lib.rs",
    "\u{e9}t\u{e9} \u{c9}T\u{c9}",
    "K\u{212a}k",
    "ab\nab\n",
];

const NEEDLES: [&str; 12] = [
    "",
    "a",
    "aa",
    "A",
    "Foo",
    "foo",
    "/tmp/proj",
    "c:\\PROJ\\",
    "\u{e9}",
    "\u{c9}",
    "k",
    "zzz",
];

fn folded_with_std(text: &str, from: &str, to: &str) -> String {
    let haystack = text.to_ascii_lowercase();
    let needle = from.to_ascii_lowercase();
    let mut out = String::new();
    let mut copied = 0;
    for (start, found) in haystack.match_indices(needle.as_str()) {
        out.push_str(&text[copied..start]);
        out.push_str(to);
        copied = start + found.len();
    }
    out.push_str(&text[copied..]);
    out
}

fn replace_exact(text: &str, from: &str, to: &str) -> String {
    from_chars(&replace_all(&to_chars(text), &to_chars(from), to, false))
}

#[test]
fn replace_ignoring_case_keeps_the_case_of_the_rest() {
    assert_eq!(replace_case_insensitive("a FOO b foo c", "Foo", "X"), "a X b X c");
    assert_eq!(replace_case_insensitive("A foo B FOO C", "Foo", "x"), "A x B x C");
}

#[test]
fn replace_of_absent_needle_changes_nothing() {
    assert_eq!(replace_case_insensitive("a FOO b foo c", "bar", "X"), "a FOO b foo c");
    assert_eq!(replace_case_insensitive("", "bar", "X"), "");
    assert_eq!(replace_case_insensitive("ba", "bar", "X"), "ba");
    assert_eq!(replace_exact("a FOO b", "foo", "X"), "a FOO b");
}

#[test]
fn replace_takes_matches_from_the_left_without_overlap() {
    assert_eq!(replace_case_insensitive("aaa", "AA", "X"), "Xa");
    assert_eq!(replace_case_insensitive("aaaa", "aa", "X"), "XX");
    assert_eq!(replace_case_insensitive("ababa", "ABA", "-"), "-ba");
}

#[test]
fn replace_of_the_empty_needle_goes_between_all_characters() {
    assert_eq!(replace_case_insensitive("abc", "", "X"), "XaXbXcX");
    assert_eq!(replace_case_insensitive("", "", "X"), "X");
    assert_eq!(replace_case_insensitive("\u{e9}", "", "-"), "-\u{e9}-");
    assert_eq!(replace_exact("ab", "", "$CRATE"), "$CRATEa$CRATEb$CRATE");
}

#[test]
fn replace_folds_ascii_letters_only() {
    assert_eq!(replace_case_insensitive("\u{c9}t\u{e9}", "\u{e9}", "e"), "\u{c9}te");
    assert_eq!(replace_case_insensitive("K\u{212a}k", "k", "x"), "x\u{212a}x");
    assert_eq!(replace_case_insensitive("[a]{A}", "[A]", "x"), "x{A}");
    assert_eq!(replace_case_insensitive("@`", "`", "x"), "@x");
}

#[test]
fn replace_may_grow_or_shrink_the_text() {
    assert_eq!(replace_case_insensitive("/tmp/x /TMP/y", "/tmp", "$WORKSPACE"), "$WORKSPACE/x $WORKSPACE/y");
    assert_eq!(replace_case_insensitive("a--b--c", "--", ""), "abc");
    assert_eq!(replace_case_insensitive("abab", "ab", "ab"), "abab");
}

#[test]
fn replace_ignoring_case_agrees_with_std() {
    for text in TEXTS {
        for needle in NEEDLES {
            for to in ["", "X", "$DIR", "aa"] {
                assert_eq!(
                    replace_case_insensitive(text, needle, to),
                    folded_with_std(text, needle, to),
                    "{:?} {:?} {:?}",
                    text,
                    needle,
                    to
                );
            }
        }
    }
}

#[test]
fn replace_exact_agrees_with_std() {
    for text in TEXTS {
        for needle in NEEDLES {
            for to in ["", "X", "$DIR/", "aa"] {
                assert_eq!(
                    replace_exact(text, needle, to),
                    text.replace(needle, to),
                    "{:?} {:?} {:?}",
                    text,
                    needle,
                    to
                );
            }
        }
    }
}

#[test]
fn backslashes_turn_into_forward_slashes() {
    assert_eq!(from_chars(&to_forward_slashes(&to_chars("C:\\a\\b/c"))), "C:/a/b/c");
    assert_eq!(from_chars(&to_forward_slashes(&to_chars(""))), "");
    for text in TEXTS {
        assert_eq!(from_chars(&to_forward_slashes(&to_chars(text))), text.replace('\\', "/"));
    }
}

#[test]
fn match_at_a_position() {
    let text = to_chars("say Hello");
    assert!(is_match_at(&text, 4, &to_chars("Hello"), false));
    assert!(!is_match_at(&text, 4, &to_chars("hello"), false));
    assert!(is_match_at(&text, 4, &to_chars("hELLO"), true));
    assert!(!is_match_at(&text, 5, &to_chars("Hello"), true));
    assert!(!is_match_at(&text, 6, &to_chars("llox"), true));
    assert!(is_match_at(&text, 9, &to_chars(""), false));
    assert!(!is_match_at(&text, 10, &to_chars(""), false));
    assert!(!is_match_at(&text, usize::MAX, &to_chars("a"), false));
    assert!(has_literal_at(&text, 0, "say"));
    assert!(has_literal_at(&text, 9, ""));
    assert!(!has_literal_at(&text, 10, ""));
    assert!(!has_literal_at(&text, 7, "lol"));
    assert!(!has_literal_at(&text, 0, "Say"));
    assert!(is_literal(&text, "say Hello"));
    assert!(!is_literal(&text, "say Hell"));
    assert!(!is_literal(&text, "say Hello!"));
    assert!(is_literal(&to_chars(""), ""));
}

#[test]
fn find_gives_the_first_position() {
    for text in TEXTS {
        for needle in NEEDLES {
            let expected = text.find(needle).map(|at| text[..at].chars().count());
            assert_eq!(find_literal(&to_chars(text), needle), expected, "{:?} {:?}", text, needle);
        }
    }
    assert_eq!(find_literal(&to_chars("abcabc"), "bc"), Some(1));
    assert_eq!(find_literal(&to_chars("abc"), ""), Some(0));
    assert_eq!(find_literal(&to_chars(""), ""), Some(0));
    assert_eq!(find_literal(&to_chars("abc"), "abcd"), None);
}

#[test]
fn whitespace_at_both_ends_is_measured() {
    for text in [
        "",
        " ",
        "a",
        " a ",
        "\t\n a b \r\n",
        "\u{3000}x\u{a0}",
        "\u{200b} x \u{200b}",
        "   ",
    ] {
        let chars = to_chars(text);
        assert_eq!(trimmed_end_len(&chars), text.trim_end().chars().count(), "{:?}", text);
        assert_eq!(
            leading_space_len(&chars),
            text.chars().count() - text.trim_start().chars().count(),
            "{:?}",
            text
        );
    }
}
