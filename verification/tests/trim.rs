use diag_normalize::normalize::{trim, trim_text};
use diag_normalize::text::{ascii_lower, from_chars, is_whitespace, same_char, to_chars};

fn trim_with_std(text: &str) -> String {
    let kept = text.trim_end();
    if kept.is_empty() {
        String::new()
    } else {
        format!("{}\n", kept)
    }
}

const SAMPLES: [&str; 14] = [
    "",
    "\n",
    " \t\r\n",
    "abc",
    "abc\n",
    "abc\n\n\n",
    "abc  \t \n",
    "  abc",
    "a\n\nb\n\n",
    "error: x\r\n",
    "tab\there \u{3000}",
    "nbsp\u{a0}\u{2028}\u{2029}",
    "\u{85}\u{1680}\u{2000}\u{200a}\u{202f}\u{205f}",
    "zero width\u{200b}",
];

#[test]
fn trim_cuts_trailing_whitespace_and_adds_one_line_feed() {
    assert_eq!(trim(b"abc  \n\n"), "abc\n");
    assert_eq!(trim(b"abc"), "abc\n");
    assert_eq!(trim(b"abc\n"), "abc\n");
    assert_eq!(trim(b"a\n b \t\r\n"), "a\n b\n");
}

#[test]
fn trim_of_nothing_is_empty() {
    assert_eq!(trim(b""), "");
}

#[test]
fn trim_of_whitespace_is_empty() {
    assert_eq!(trim(b" \t\r\n\n "), "");
    assert_eq!(trim("\u{3000}\u{a0}\n".as_bytes()), "");
}

#[test]
fn trim_keeps_leading_and_inner_whitespace() {
    assert_eq!(trim(b"  a \n\n b  "), "  a \n\n b\n");
}

#[test]
fn trim_cuts_unicode_whitespace() {
    assert_eq!(trim("x\u{3000}\u{2028}\u{a0}".as_bytes()), "x\n");
    assert_eq!(trim("x\u{200b}".as_bytes()), "x\u{200b}\n");
}

#[test]
fn trim_replaces_what_is_not_utf8() {
    assert_eq!(trim(b"ab\xff \n"), "ab\u{fffd}\n");
    assert_eq!(trim(b"\xc3\x28"), "\u{fffd}(\n");
    assert_eq!(trim(b"caf\xc3\xa9 "), "caf\u{e9}\n");
}

#[test]
fn trim_twice_is_trim_once() {
    for sample in SAMPLES {
        let once = trim(sample.as_bytes());
        let twice = trim(once.as_bytes());
        assert_eq!(twice, once);
        assert_eq!(trim_text(&once), once);
    }
    let once = trim(b"\xf0\x28\x8c\x28 \n");
    assert_eq!(trim(once.as_bytes()), once);
}

#[test]
fn trim_ends_with_exactly_one_line_feed() {
    for sample in SAMPLES {
        let out = trim(sample.as_bytes());
        if sample.chars().all(|c| c.is_whitespace()) {
            assert_eq!(out, "");
        } else {
            assert!(out.ends_with('\n'));
            let before = &out[..out.len() - 1];
            assert!(!before.is_empty());
            assert!(!before.ends_with(|c: char| c.is_whitespace()));
            assert_eq!(before, sample.trim_end());
        }
    }
}

#[test]
fn trim_text_agrees_with_std() {
    for sample in SAMPLES {
        assert_eq!(trim_text(sample), trim_with_std(sample));
        assert_eq!(trim(sample.as_bytes()), trim_with_std(sample));
    }
}

#[test]
fn whitespace_is_what_std_calls_whitespace() {
    let mut count = 0;
    for code in 0..=0x10ffffu32 {
        if let Some(c) = char::from_u32(code) {
            assert_eq!(is_whitespace(c), c.is_whitespace(), "U+{:04X}", code);
            if is_whitespace(c) {
                count += 1;
            }
        }
    }
    assert_eq!(count, 25);
}

#[test]
fn ascii_lower_is_what_std_lowers() {
    for code in 0..=0x10ffffu32 {
        if let Some(c) = char::from_u32(code) {
            assert_eq!(ascii_lower(c), c.to_ascii_lowercase(), "U+{:04X}", code);
        }
    }
    assert_eq!(ascii_lower('A'), 'a');
    assert_eq!(ascii_lower('Z'), 'z');
    assert_eq!(ascii_lower('@'), '@');
    assert_eq!(ascii_lower('['), '[');
    assert_eq!(ascii_lower('\u{c9}'), '\u{c9}');
}

#[test]
fn same_char_folds_ascii_only() {
    assert!(same_char('a', 'A', true));
    assert!(!same_char('a', 'A', false));
    assert!(same_char('a', 'a', false));
    assert!(!same_char('\u{e9}', '\u{c9}', true));
    assert!(!same_char('k', '\u{212a}', true));
}

#[test]
fn chars_and_strings_convert_both_ways() {
    for sample in SAMPLES {
        let chars = to_chars(sample);
        assert_eq!(chars, sample.chars().collect::<Vec<char>>());
        assert_eq!(from_chars(&chars), sample);
    }
}
