use diag_normalize::lines::lines;

#[test]
fn lines_end_at_line_feeds() {
    assert_eq!(lines("a\nb\nc"), vec!["a", "b", "c"]);
    assert_eq!(lines("a\nb\n"), vec!["a", "b"]);
}

#[test]
fn lines_of_nothing_are_none() {
    assert_eq!(lines(""), Vec::<String>::new());
}

#[test]
fn empty_lines_are_lines() {
    assert_eq!(lines("\n"), vec![""]);
    assert_eq!(lines("\n\n"), vec!["", ""]);
    assert_eq!(lines("a\n\nb"), vec!["a", "", "b"]);
}

#[test]
fn carriage_return_before_line_feed_belongs_to_the_ending() {
    assert_eq!(lines("a\r\nb\r\n"), vec!["a", "b"]);
    assert_eq!(lines("\r\n"), vec![""]);
    assert_eq!(lines("a\r\r\nb"), vec!["a\r", "b"]);
}

#[test]
fn other_carriage_returns_stay() {
    assert_eq!(lines("a\r"), vec!["a\r"]);
    assert_eq!(lines("a\rb\n"), vec!["a\rb"]);
    assert_eq!(lines("a\n\rb"), vec!["a", "\rb"]);
    assert_eq!(lines("a\n\r"), vec!["a", "\r"]);
}

#[test]
fn lines_agree_with_std() {
    for text in [
        "",
        "\n",
        "\r",
        "\r\n",
        "\n\r",
        "a",
        "a\n",
        "a\r\n",
        "a\r\nb",
        "a\n\n\nb\n\n",
        "\r\r\n\r\n\r",
        " \u{2028} \n\u{85}\n",
        "one\ntwo\r\nthree\rfour\n\rfive",
    ] {
        let expected: Vec<String> = text.lines().map(|line| line.to_string()).collect();
        assert_eq!(lines(text), expected, "{:?}", text);
    }
}
