use gww::text::{
    chars_of, find_char, has_prefix, has_suffix, holds_char, is_blank_char, is_text_before, lines,
    parse_i64, same_text, skip_past_first, skip_past_last, split, string_of, strip_prefix, trim,
    trim_leading, trim_trailing,
};

fn cs(s: &str) -> Vec<char> {
    s.chars().collect()
}

fn strings(parts: Vec<&[char]>) -> Vec<String> {
    parts.into_iter().map(|p| p.iter().collect()).collect()
}

#[test]
fn chars_and_string_round_trip() {
    let v = chars_of("héllo wörld");
    assert_eq!(v, cs("héllo wörld"));
    assert_eq!(string_of(&v), "héllo wörld");
    assert_eq!(string_of(&[]), "");
}

#[test]
fn string_of_keeps_every_character() {
    assert_eq!(string_of(&['a', 'b', 'c']), "abc");
    assert_eq!(string_of(&['a', 'b', 'c']).len(), 3);
}

#[test]
fn blank_characters_are_those_of_the_standard_library() {
    let mut code: u32 = 0;
    while code <= 0x10FFFF {
        if let Some(c) = char::from_u32(code) {
            assert_eq!(is_blank_char(c), c.is_whitespace(), "U+{:04X}", code);
        }
        code += 1;
    }
}

#[test]
fn unit_separator_is_not_blank() {
    assert!(!is_blank_char('\x1f'));
    assert!(is_blank_char(' '));
    assert!(is_blank_char('\t'));
    assert!(is_blank_char('\n'));
    assert!(is_blank_char('\r'));
    assert!(is_blank_char('\u{3000}'));
}

#[test]
fn trim_strips_both_ends() {
    let v = cs("  \t main \r\n");
    assert_eq!(string_of(trim(&v)), "main");
}

#[test]
fn trim_keeps_inner_blanks() {
    let v = cs(" a b  c ");
    assert_eq!(string_of(trim(&v)), "a b  c");
}

#[test]
fn trim_of_blank_text_is_empty() {
    assert_eq!(string_of(trim(&cs(" \t\n "))), "");
    assert_eq!(string_of(trim(&cs(""))), "");
}

#[test]
fn trim_matches_the_standard_library() {
    for s in ["", " ", "a", " a", "a ", "\u{a0}x\u{2003}", "x\x1f ", "\x1fx", " \u{feff}a "] {
        assert_eq!(string_of(trim(&cs(s))), s.trim(), "{:?}", s);
    }
}

#[test]
fn find_char_gives_first_index_or_length() {
    assert_eq!(find_char(&cs("a/b/c"), '/'), 1);
    assert_eq!(find_char(&cs("abc"), '/'), 3);
    assert_eq!(find_char(&cs(""), '/'), 0);
    assert_eq!(find_char(&cs("/"), '/'), 0);
}

#[test]
fn holds_char_tests_membership() {
    assert!(holds_char(&cs("origin/main"), '/'));
    assert!(!holds_char(&cs("main"), '/'));
}

#[test]
fn split_cuts_at_every_separator() {
    let v = cs("a\x1fb\x1f\x1fc");
    assert_eq!(strings(split(&v, '\x1f')), vec!["a", "b", "", "c"]);
}

#[test]
fn split_always_gives_one_piece() {
    assert_eq!(strings(split(&cs(""), ',')), vec![""]);
    assert_eq!(strings(split(&cs("abc"), ',')), vec!["abc"]);
    assert_eq!(strings(split(&cs(","), ',')), vec!["", ""]);
}

#[test]
fn split_matches_the_standard_library() {
    for s in ["", "/", "a/b", "/a/", "a//b", "abc"] {
        let want: Vec<String> = s.split('/').map(|p| p.to_string()).collect();
        assert_eq!(strings(split(&cs(s), '/')), want, "{:?}", s);
    }
}

#[test]
fn lines_end_at_line_feeds() {
    assert_eq!(strings(lines(&cs("a\nb\n"))), vec!["a", "b"]);
    assert_eq!(strings(lines(&cs("a\nb"))), vec!["a", "b"]);
    assert_eq!(strings(lines(&cs("a\n\nb"))), vec!["a", "", "b"]);
    assert_eq!(strings(lines(&cs(""))), Vec::<String>::new());
    assert_eq!(strings(lines(&cs("\n"))), vec![""]);
}

#[test]
fn lines_drop_a_carriage_return_before_a_line_feed() {
    assert_eq!(strings(lines(&cs("foo\nbar\n\r\nbaz\r"))), vec!["foo", "bar", "", "baz\r"]);
    assert_eq!(strings(lines(&cs("a\r\nb\r\n"))), vec!["a", "b"]);
    assert_eq!(strings(lines(&cs("a\r\r\n"))), vec!["a\r"]);
}

#[test]
fn lines_match_the_standard_library() {
    for s in ["", "\n", "a", "a\n", "a\r\n", "a\r", "\r\n\r\n", "x\n\ny\r\nz", "\r", "a\n\r"] {
        let want: Vec<String> = s.lines().map(|p| p.to_string()).collect();
        assert_eq!(strings(lines(&cs(s))), want, "{:?}", s);
    }
}

#[test]
fn prefix_and_suffix_tests() {
    assert!(has_prefix(&cs("worktree /x"), &cs("worktree ")));
    assert!(!has_prefix(&cs("worktree"), &cs("worktree ")));
    assert!(has_prefix(&cs("abc"), &cs("")));
    assert!(has_suffix(&cs("origin/HEAD"), &cs("/HEAD")));
    assert!(!has_suffix(&cs("HEAD"), &cs("/HEAD")));
    assert!(has_suffix(&cs("abc"), &cs("")));
}

#[test]
fn same_text_compares_character_by_character() {
    assert!(same_text(&cs("HEAD"), &cs("HEAD")));
    assert!(!same_text(&cs("HEAD"), &cs("HEAd")));
    assert!(!same_text(&cs("HEAD"), &cs("HEA")));
    assert!(same_text(&cs(""), &cs("")));
}

#[test]
fn strip_prefix_takes_one_copy() {
    let v = cs("refs/heads/refs/heads/x");
    assert_eq!(strip_prefix(&v, &cs("refs/heads/")).map(string_of), Some("refs/heads/x".to_string()));
    assert_eq!(strip_prefix(&cs("main"), &cs("refs/heads/")).map(string_of), None);
}

#[test]
fn trim_leading_takes_every_copy() {
    let v = cs("worktree worktree /x");
    assert_eq!(string_of(trim_leading(&v, &cs("worktree "))), "/x");
    assert_eq!(string_of(trim_leading(&cs("/x"), &cs("worktree "))), "/x");
    assert_eq!(string_of(trim_leading(&cs("abab"), &cs("ab"))), "");
    assert_eq!(string_of(trim_leading(&cs("abc"), &cs(""))), "abc");
}

#[test]
fn trim_trailing_takes_every_copy() {
    assert_eq!(string_of(trim_trailing(&cs("repo.git.git"), &cs(".git"))), "repo");
    assert_eq!(string_of(trim_trailing(&cs("a///"), &cs("/"))), "a");
    assert_eq!(string_of(trim_trailing(&cs("repo"), &cs(".git"))), "repo");
    assert_eq!(string_of(trim_trailing(&cs(".git"), &cs(".git"))), "");
    assert_eq!(string_of(trim_trailing(&cs("abc"), &cs(""))), "abc");
}

#[test]
fn skip_past_first_and_last() {
    assert_eq!(string_of(skip_past_first(&cs("origin/feature/x"), '/')), "feature/x");
    assert_eq!(string_of(skip_past_first(&cs("main"), '/')), "main");
    assert_eq!(string_of(skip_past_first(&cs("a/"), '/')), "");
    assert_eq!(string_of(skip_past_last(&cs("a/b/c"), '/')), "c");
    assert_eq!(string_of(skip_past_last(&cs("abc"), '/')), "abc");
    assert_eq!(string_of(skip_past_last(&cs("a/"), '/')), "");
}

#[test]
fn text_order_matches_string_order() {
    let names = ["", "a", "A", "ab", "b", "main", "maim", "origin/x", "é", "z", "\u{10000}", "\u{ffff}"];
    for a in names {
        for b in names {
            assert_eq!(is_text_before(&cs(a), &cs(b)), a < b, "{:?} {:?}", a, b);
        }
    }
}

#[test]
fn parse_i64_reads_signed_decimals() {
    assert_eq!(parse_i64(&cs("1700000000")), Some(1700000000));
    assert_eq!(parse_i64(&cs("0")), Some(0));
    assert_eq!(parse_i64(&cs("-0")), Some(0));
    assert_eq!(parse_i64(&cs("+5")), Some(5));
    assert_eq!(parse_i64(&cs("-5")), Some(-5));
    assert_eq!(parse_i64(&cs("0005")), Some(5));
}

#[test]
fn parse_i64_reaches_both_ends() {
    assert_eq!(parse_i64(&cs("9223372036854775807")), Some(i64::MAX));
    assert_eq!(parse_i64(&cs("-9223372036854775808")), Some(i64::MIN));
    assert_eq!(parse_i64(&cs("9223372036854775808")), None);
    assert_eq!(parse_i64(&cs("-9223372036854775809")), None);
    assert_eq!(parse_i64(&cs("99999999999999999999999")), None);
    assert_eq!(parse_i64(&cs("00000000000000000000000000001")), Some(1));
}

#[test]
fn parse_i64_refuses_what_is_no_number() {
    for s in ["", "+", "-", " 5", "5 ", "1_000", "12a", "--1", "+-1", "1.0", "٣"] {
        assert_eq!(parse_i64(&cs(s)), None, "{:?}", s);
    }
}

#[test]
fn parse_i64_matches_the_standard_library() {
    for s in ["", "0", "-1", "+1", "007", "9223372036854775807", "9223372036854775808", "x", "1x"] {
        assert_eq!(parse_i64(&cs(s)), s.parse::<i64>().ok(), "{:?}", s);
    }
}
