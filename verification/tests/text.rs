use wt::text::{
    chars_of, decimal_of, join_of, lex_lt_of, lines_of, pad_right_of, parse_u32_of,
    replace_of, split_whitespace_of, trim_of, trim_start_matches_of,
};

fn chars(s: &str) -> Vec<char> {
    s.chars().collect()
}

fn text(v: &[char]) -> String {
    v.iter().collect()
}

fn texts(v: &[Vec<char>]) -> Vec<String> {
    v.iter().map(|l| text(l)).collect()
}

#[test]
fn chars_of_keeps_every_character() {
    assert_eq!(chars_of("a\u{25cf}b"), vec!['a', '\u{25cf}', 'b']);
    assert!(chars_of("").is_empty());
}

#[test]
fn trim_removes_unicode_whitespace_at_both_ends() {
    assert_eq!(text(&trim_of(&chars("  \t x y \n"))), "x y");
    assert_eq!(text(&trim_of(&chars("\u{3000}x\u{a0}"))), "x");
    assert_eq!(text(&trim_of(&chars(" \n\t "))), "");
    assert_eq!(text(&trim_of(&chars("x"))), "x");
}

#[test]
fn lines_follow_str_lines() {
    for s in ["", "a", "a\n", "a\nb", "a\r\nb\r\n", "\n", "\n\n", "a\r", "x\n\ny", "\r\n"] {
        let expected: Vec<String> = s.lines().map(|l| l.to_string()).collect();
        assert_eq!(texts(&lines_of(&chars(s))), expected, "input {:?}", s);
    }
}

#[test]
fn split_whitespace_follows_str_split_whitespace() {
    for s in ["", "  ", "+1 -2", "  +1   -2  ", "a\tb\nc", "one"] {
        let expected: Vec<String> = s.split_whitespace().map(|w| w.to_string()).collect();
        assert_eq!(texts(&split_whitespace_of(&chars(s))), expected, "input {:?}", s);
    }
}

#[test]
fn parse_u32_follows_str_parse() {
    for s in ["0", "42", "+7", "", "+", "-1", "4294967295", "4294967296", "12a", " 1", "007", "99999999999"] {
        assert_eq!(parse_u32_of(&chars(s)), s.parse::<u32>().ok(), "input {:?}", s);
    }
}

#[test]
fn decimal_matches_display() {
    for n in [0u32, 7, 10, 99, 100, 12345, u32::MAX] {
        assert_eq!(text(&decimal_of(n)), n.to_string());
    }
}

#[test]
fn trim_start_matches_strips_every_leading_copy() {
    assert_eq!(text(&trim_start_matches_of(&chars("++3"), &chars("+"))), "3");
    assert_eq!(text(&trim_start_matches_of(&chars("ababc"), &chars("ab"))), "c");
    assert_eq!(text(&trim_start_matches_of(&chars("x"), &chars(""))), "x");
}

#[test]
fn replace_follows_str_replace() {
    let cases = [("~/w/{repo}/{name}", "{repo}", "r"), ("{x}{x}", "{x}", "yy"), ("aaa", "aa", "b"), ("", "a", "b")];
    for (s, p, r) in cases {
        assert_eq!(text(&replace_of(&chars(s), &chars(p), &chars(r))), s.replace(p, r));
    }
}

#[test]
fn pad_right_matches_format_width() {
    assert_eq!(text(&pad_right_of(&chars("ab"), 5)), format!("{:<5}", "ab"));
    assert_eq!(text(&pad_right_of(&chars("abcdef"), 3)), "abcdef");
    assert_eq!(text(&pad_right_of(&chars("\u{25cf}"), 3)), format!("{:<3}", "\u{25cf}"));
}

#[test]
fn lexicographic_order_matches_str_order() {
    let words = ["", "a", "ab", "b", "B", "\u{e9}", "z"];
    for a in words {
        for b in words {
            assert_eq!(lex_lt_of(&chars(a), &chars(b)), a < b, "{:?} < {:?}", a, b);
        }
    }
}

#[test]
fn join_puts_the_separator_between_parts() {
    let parts = vec!["worktree".to_string(), "add".to_string(), "x".to_string()];
    assert_eq!(join_of(&parts, " "), "worktree add x");
    assert_eq!(join_of(&Vec::new(), " "), "");
}
