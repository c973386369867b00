use minigrep_cli_tool::lines::split_first_line;
use minigrep_cli_tool::search;

fn all_lines(contents: &str) -> Vec<&str> {
    search("", contents)
}

#[test]
fn first_line_of_empty_text() {
    assert_eq!(split_first_line(""), ("", ""));
}

#[test]
fn first_line_without_line_feed() {
    assert_eq!(split_first_line("only one"), ("only one", ""));
}

#[test]
fn first_line_stops_at_line_feed() {
    assert_eq!(split_first_line("one\ntwo\nthree"), ("one", "two\nthree"));
}

#[test]
fn first_line_may_be_empty() {
    assert_eq!(split_first_line("\nrest"), ("", "rest"));
    assert_eq!(split_first_line("\n"), ("", ""));
}

#[test]
fn first_line_drops_carriage_return_before_line_feed() {
    assert_eq!(split_first_line("one\r\ntwo"), ("one", "two"));
    assert_eq!(split_first_line("\r\n"), ("", ""));
}

#[test]
fn first_line_drops_one_carriage_return_only() {
    assert_eq!(split_first_line("one\r\r\ntwo"), ("one\r", "two"));
}

#[test]
fn first_line_keeps_carriage_return_without_line_feed() {
    assert_eq!(split_first_line("one\r"), ("one\r", ""));
    assert_eq!(split_first_line("o\rne\ntwo"), ("o\rne", "two"));
}

#[test]
fn first_line_with_wide_characters() {
    assert_eq!(split_first_line("héllo wörld\nnext"), ("héllo wörld", "next"));
    assert_eq!(split_first_line("日本語\r\nテキスト"), ("日本語", "テキスト"));
    assert_eq!(split_first_line("🦀\n🦀🦀"), ("🦀", "🦀🦀"));
}

#[test]
fn first_line_is_a_slice_of_the_text() {
    let text = String::from("alpha\r\nbeta");
    let (line, rest) = split_first_line(&text);
    let whole = text.as_bytes().as_ptr_range();
    assert!(whole.contains(&line.as_ptr()));
    assert!(whole.contains(&rest.as_ptr()));
    assert_eq!(line.as_ptr(), text.as_ptr());
}

#[test]
fn last_line_feed_opens_no_line() {
    assert_eq!(all_lines("one\ntwo\n"), vec!["one", "two"]);
    assert_eq!(all_lines("one\ntwo"), vec!["one", "two"]);
}

#[test]
fn empty_lines_are_lines() {
    assert_eq!(all_lines("\n"), vec![""]);
    assert_eq!(all_lines("\n\n"), vec!["", ""]);
    assert_eq!(all_lines("a\n\nb"), vec!["a", "", "b"]);
}

#[test]
fn lines_agree_with_the_standard_library() {
    let texts = [
        "",
        "\n",
        "\r",
        "\r\n",
        "\n\r",
        "a",
        "a\n",
        "a\r",
        "a\r\n",
        "a\n\r",
        "a\r\r\n",
        "a\nb",
        "a\r\nb",
        "a\rb\nc",
        "a\n\nb\n",
        "a\n\n\n",
        "\n\na",
        "one\r\ntwo\r\nthree\r\n",
        "one\r\ntwo\nthree\r",
        "héllo\nwörld\r\n",
        "日本語\r\nテキスト\n",
        "🦀\r\n\r\n🦀",
        "tab\there\u{85}next\u{2028}line",
    ];
    for text in texts {
        let expected: Vec<&str> = text.lines().collect();
        assert_eq!(all_lines(text), expected, "lines of {:?}", text);
    }
}

#[test]
fn lines_closed_by_line_feeds_make_up_the_text() {
    let texts = ["", "a", "a\n", "a\nb", "\n", "a\n\nb\n", "one\ntwo\nthree", "a\rb\n"];
    for text in texts {
        let mut joined = String::new();
        for line in all_lines(text) {
            joined.push_str(line);
            joined.push('\n');
        }
        let mut expected = String::from(text);
        if !text.is_empty() && !text.ends_with('\n') {
            expected.push('\n');
        }
        assert_eq!(joined, expected, "lines of {:?}", text);
    }
}

#[test]
fn no_line_holds_a_line_feed() {
    for line in all_lines("a\nb\r\n\nc\n\n") {
        assert!(!line.contains('\n'));
    }
}
