use minigrep_cli_tool::substring::{contains, same_text};

#[test]
fn contains_finds_a_part() {
    assert!(contains("safe, fast, productive.", "duct"));
    assert!(contains("safe, fast, productive.", "safe"));
    assert!(contains("safe, fast, productive.", "."));
    assert!(contains("safe, fast, productive.", "safe, fast, productive."));
}

#[test]
fn contains_misses_what_is_not_there() {
    assert!(!contains("safe, fast, productive.", "Duct"));
    assert!(!contains("safe, fast, productive.", "fast,  "));
    assert!(!contains("abc", "abcd"));
    assert!(!contains("abc", "cb"));
    assert!(!contains("", "a"));
}

#[test]
fn contains_the_empty_needle_always() {
    assert!(contains("abc", ""));
    assert!(contains("", ""));
}

#[test]
fn contains_does_not_ignore_case_or_blanks() {
    assert!(!contains("Rust:", "rust"));
    assert!(!contains("a b", "ab"));
    assert!(contains(" a b ", " b "));
}

#[test]
fn contains_after_a_false_start() {
    assert!(contains("aaab", "aab"));
    assert!(contains("abababc", "ababc"));
    assert!(!contains("ababab", "ababc"));
}

#[test]
fn contains_compares_whole_characters() {
    assert!(contains("héllo", "é"));
    assert!(contains("日本語のテキスト", "語の"));
    assert!(!contains("è", "é"));
    assert!(!contains("日本語", "本日"));
    assert!(contains("a🦀b", "🦀b"));
}

#[test]
fn contains_agrees_with_the_standard_library() {
    let texts = ["", "a", "ab", "aab", "abcabc", "héllo wörld", "日本語", "è", "🦀a🦀", "\u{80}\u{7ff}"];
    for haystack in texts {
        for needle in texts {
            assert_eq!(
                contains(haystack, needle),
                haystack.contains(needle),
                "{:?} in {:?}",
                needle,
                haystack
            );
        }
    }
}

#[test]
fn same_text_compares_every_character() {
    assert!(same_text("", ""));
    assert!(same_text("/i", "/i"));
    assert!(same_text("héllo", "héllo"));
    assert!(!same_text("/i", "/s"));
    assert!(!same_text("/i", "/I"));
    assert!(!same_text("/i", "/i "));
    assert!(!same_text("/i", ""));
    assert!(!same_text("è", "é"));
}
