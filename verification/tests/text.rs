use dsh_desktop::text::{
    contains_text, decimal_text, find_from, glue, is_space_char, join, parse_number,
    signed_text, split_char, split_lines, strip_prefix, strip_suffix, to_chars, trim, word_end,
};

fn chars(s: &str) -> Vec<char> {
    s.chars().collect()
}

fn text(v: &Vec<char>) -> String {
    v.iter().collect()
}

#[test]
fn white_space_is_that_of_unicode() {
    for n in 0..0x11_0000u32 {
        if let Some(c) = char::from_u32(n) {
            assert_eq!(is_space_char(c), c.is_whitespace(), "{n:x}");
        }
    }
}

#[test]
fn trimming_is_that_of_strings() {
    for s in ["", " ", "a", " a b\t", "\u{3000}x\u{a0}", "\r\nq\r\n"] {
        assert_eq!(text(&trim(&chars(s))), s.trim());
        assert_eq!(text(&to_chars(s)), s);
    }
}

#[test]
fn lines_are_those_of_strings() {
    for s in ["", "a", "a\n", "a\r\nb", "\n\n", "a\rb\n", "a\n\r\n", "\r", "a\r"] {
        let got: Vec<String> = split_lines(&chars(s)).iter().map(text).collect();
        let want: Vec<&str> = s.lines().collect();
        assert_eq!(got, want, "{s:?}");
    }
}

#[test]
fn pieces_are_those_of_strings() {
    for s in ["", ".", "a.b", "a..b.", ".a"] {
        let got: Vec<String> = split_char(&chars(s), '.').iter().map(text).collect();
        let want: Vec<&str> = s.split('.').collect();
        assert_eq!(got, want, "{s:?}");
    }
}

#[test]
fn searching_is_that_of_strings() {
    assert_eq!(find_from(&chars("aabaab"), &chars("ab"), 0), Some(1));
    assert_eq!(find_from(&chars("aabaab"), &chars("ab"), 2), Some(4));
    assert_eq!(find_from(&chars("aab"), &chars("ba"), 0), None);
    assert_eq!(find_from(&chars("aab"), &chars(""), 3), Some(3));
    assert!(contains_text(&chars("npm http fetch GET"), "GET"));
    assert!(!contains_text(&chars("npm http fetch"), "GET"));
    assert_eq!(word_end(&chars("ab c"), 0), 2);
    assert_eq!(word_end(&chars("ab c"), 3), 4);
}

#[test]
fn prefixes_and_suffixes() {
    assert_eq!(strip_prefix(&chars("v1"), "v").map(|v| text(&v)), Some("1".to_string()));
    assert_eq!(strip_prefix(&chars("1"), "v"), None);
    assert_eq!(text(&strip_suffix(&chars("a.git"), ".git")), "a");
    assert_eq!(text(&strip_suffix(&chars("git"), ".git")), "git");
}

#[test]
fn numbers_are_those_of_strings() {
    for s in ["", "0", "7", "+7", "-7", "+", "00012", "65535", "65536", "1 ", "a", "１"] {
        assert_eq!(
            parse_number(&chars(s), 65535),
            s.parse::<u16>().ok().map(|n| n as u64),
            "{s:?}"
        );
    }
    for s in ["18446744073709551615", "18446744073709551616", "99999999999999999999999999"] {
        assert_eq!(parse_number(&chars(s), u64::MAX), s.parse::<u64>().ok());
    }
    for n in [0, 9, 10, 12345, u64::MAX] {
        assert_eq!(decimal_text(n), n.to_string());
    }
    for n in [0, 7, -1, i32::MIN, i32::MAX] {
        assert_eq!(signed_text(n), n.to_string());
    }
}

#[test]
fn joining() {
    let v: Vec<String> = ["a", "", "c"].iter().map(|s| s.to_string()).collect();
    assert_eq!(join(&v, ", "), "a, , c");
    assert_eq!(join(&Vec::new(), ", "), "");
    assert_eq!(glue("a", "b"), "ab");
}
