use tokf::text::{
    char_is_whitespace, chars_of, contains_str, decimal_string, ends_with, head, is_blank_str,
    join_lines, join_strings, join_strs, lines, parse_i64_str, replace_str, same_text,
    signed_decimal_string, string_of, tail, trim_end_str, trim_start_str, trim_str, words,
};

const SAMPLES: &[&str] = &[
    "",
    "a",
    "\n",
    "\n\n",
    "a\n",
    "a\nb",
    "a\n\nb\n",
    "a\r\nb\r\n",
    "a\r",
    "a\r\r\nb",
    "\r\n",
    "\r",
    "  lead\ttab \u{a0}\u{3000}x\u{2003} ",
    " \u{85}\u{1680} ",
    "héllo wörld → ✓\nsecond\u{2028}line",
    "one  two\t\tthree\n four",
];

#[test]
fn lines_agree_with_std() {
    for s in SAMPLES {
        let expected: Vec<String> = s.lines().map(|l| l.to_string()).collect();
        assert_eq!(lines(s), expected, "lines of {:?}", s);
    }
}

#[test]
fn lines_keep_a_bare_carriage_return_at_the_end() {
    assert_eq!(lines("a\r"), vec!["a\r".to_string()]);
    assert_eq!(lines("a\r\n"), vec!["a".to_string()]);
    assert_eq!(lines("a\r\r\n"), vec!["a\r".to_string()]);
    assert_eq!(lines("a\n\nb"), vec!["a".to_string(), "".to_string(), "b".to_string()]);
    assert_eq!(lines(""), Vec::<String>::new());
    assert_eq!(lines("\n"), vec!["".to_string()]);
}

#[test]
fn words_agree_with_std() {
    for s in SAMPLES {
        let expected: Vec<String> = s.split_whitespace().map(|l| l.to_string()).collect();
        assert_eq!(words(s), expected, "words of {:?}", s);
    }
}

#[test]
fn trims_agree_with_std() {
    for s in SAMPLES {
        assert_eq!(trim_str(s), s.trim(), "trim of {:?}", s);
        assert_eq!(trim_start_str(s), s.trim_start(), "trim_start of {:?}", s);
        assert_eq!(trim_end_str(s), s.trim_end(), "trim_end of {:?}", s);
        assert_eq!(is_blank_str(s), s.trim().is_empty(), "blank {:?}", s);
    }
    assert_eq!(trim_str("  hello world  "), "hello world");
}

#[test]
fn whitespace_agrees_with_std_on_every_character() {
    let mut c = 0u32;
    while c <= 0x10ffff {
        if let Some(ch) = char::from_u32(c) {
            assert_eq!(char_is_whitespace(ch), ch.is_whitespace(), "U+{:04X}", c);
        }
        c += 1;
    }
}

#[test]
fn join_puts_the_separator_between_neighbours() {
    assert_eq!(join_strs(&[], ", "), "");
    assert_eq!(join_strs(&["a"], ", "), "a");
    assert_eq!(join_strs(&["a", "b", "c"], ", "), "a, b, c");
    assert_eq!(join_strs(&["", ""], "-"), "-");
    assert_eq!(join_lines(&["a", "", "b"]), "a\n\nb");
    assert_eq!(join_strings(&["x".to_string(), "y".to_string()], ""), "xy");
}

#[test]
fn replace_agrees_with_std() {
    let cases = [
        ("", "a", "b"),
        ("aaa", "a", "bb"),
        ("aaa", "aa", "b"),
        ("abcabc", "bc", ""),
        ("abc", "", "-"),
        ("", "", "-"),
        ("{10}{1}", "{1}", "x"),
        ("héllo → héllo", "héllo", "→"),
        ("abc", "abcd", "x"),
        ("it's", "'", "'\\''"),
    ];
    for (s, from, to) in cases {
        assert_eq!(replace_str(s, from, to), s.replace(from, to), "{:?} {:?} {:?}", s, from, to);
    }
    assert_eq!(replace_str("aaa", "aa", "b"), "ba");
    assert_eq!(replace_str("abc", "", "-"), "-a-b-c-");
}

#[test]
fn contains_agrees_with_std() {
    let cases = [
        ("", ""),
        ("abc", ""),
        ("", "a"),
        ("abc", "bc"),
        ("abc", "cb"),
        ("abc", "abcd"),
        ("Everything up-to-date", "up-to-date"),
        ("fatal: error", "Fatal"),
        ("aab", "ab"),
    ];
    for (hay, needle) in cases {
        assert_eq!(contains_str(hay, needle), hay.contains(needle), "{:?} {:?}", hay, needle);
    }
}

#[test]
fn ends_with_looks_at_the_last_character() {
    assert!(ends_with("a\n", '\n'));
    assert!(!ends_with("a\nb", '\n'));
    assert!(!ends_with("", '\n'));
}

#[test]
fn same_text_is_equality() {
    assert!(same_text("", ""));
    assert!(same_text("héllo", "héllo"));
    assert!(!same_text("a", "b"));
    assert!(!same_text("a", "ab"));
    assert!(!same_text("Bash", "bash"));
}

#[test]
fn characters_round_trip() {
    for s in SAMPLES {
        let chars = chars_of(s);
        assert_eq!(chars, s.chars().collect::<Vec<char>>());
        assert_eq!(string_of(&chars), *s);
    }
}

#[test]
fn decimal_agrees_with_std() {
    for n in [0usize, 1, 9, 10, 11, 99, 100, 101, 12345, 1_000_000, usize::MAX] {
        assert_eq!(decimal_string(n), n.to_string());
    }
    for n in [0i128, 1, -1, 10, -10, 23, i64::MAX as i128, i64::MIN as i128, i128::MAX, i128::MIN] {
        assert_eq!(signed_decimal_string(n), n.to_string());
    }
}

#[test]
fn parse_agrees_with_std() {
    let cases = [
        "", "-", "+", "0", "-0", "+0", "7", "007", "+5", "-5", "12", " 12", "12 ", "1a", "a1",
        "--1", "+-1", "1.5", "9223372036854775807", "9223372036854775808",
        "-9223372036854775808", "-9223372036854775809", "99999999999999999999999999999999999999999",
        "-99999999999999999999999999999999999999999", "٣", "1_000",
    ];
    for s in cases {
        assert_eq!(parse_i64_str(s), s.parse::<i64>().ok(), "parse of {:?}", s);
    }
    assert_eq!(parse_i64_str("23"), Some(23));
    assert_eq!(parse_i64_str("-9223372036854775808"), Some(i64::MIN));
}

#[test]
fn tail_keeps_the_last_lines() {
    assert_eq!(tail(&["a", "b", "c", "d"], 3), vec!["b", "c", "d"]);
    assert_eq!(tail(&["a", "b"], 3), vec!["a", "b"]);
    assert_eq!(tail(&["a", "b"], 2), vec!["a", "b"]);
    assert_eq!(tail(&["a", "b"], 0), Vec::<&str>::new());
    assert_eq!(tail(&[], 2), Vec::<&str>::new());
}

#[test]
fn head_keeps_the_first_lines() {
    assert_eq!(head(&["b", "c", "d"], 2), vec!["b", "c"]);
    assert_eq!(head(&["a", "b"], 3), vec!["a", "b"]);
    assert_eq!(head(&["a", "b"], 0), Vec::<&str>::new());
    assert_eq!(head(&[], 2), Vec::<&str>::new());
}
