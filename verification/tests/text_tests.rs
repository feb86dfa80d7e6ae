use uulp::text::{chars_of, parse_i32, parse_usize, split_words, str_starts_with, trim_str};

fn words(s: &str) -> Vec<String> {
    split_words(&chars_of(s))
}

#[test]
fn split_words_skips_all_whitespace() {
    assert_eq!(words("  ls   -l\t/tmp \n"), vec!["ls", "-l", "/tmp"]);
    assert_eq!(words(""), Vec::<String>::new());
    assert_eq!(words(" \t\n "), Vec::<String>::new());
    assert_eq!(words("one"), vec!["one"]);
    assert_eq!(words("a\u{3000}b"), vec!["a", "b"]);
}

#[test]
fn split_words_matches_std() {
    for s in ["x y", "  lead", "trail  ", "a\u{85}b\u{a0}c", "mixed\r\nlines"] {
        let ours = words(s);
        let std: Vec<String> = s.split_whitespace().map(|w| w.to_string()).collect();
        assert_eq!(ours, std);
    }
}

#[test]
fn trim_matches_std() {
    for s in ["  hi  ", "\tx\n", "", "   ", "a b", "\u{2028}z\u{2029}"] {
        assert_eq!(trim_str(s), s.trim());
    }
}

#[test]
fn parse_i32_matches_std() {
    for s in [
        "0", "42", "-17", "+5", "-", "+", "", "12a", "2147483647", "2147483648", "-2147483648",
        "-2147483649", "007", " 1", "99999999999999999999999",
    ] {
        assert_eq!(parse_i32(&chars_of(s)), s.parse::<i32>().ok(), "input {:?}", s);
    }
}

#[test]
fn parse_usize_matches_std() {
    for s in ["0", "3", "+3", "-0", "-3", "", "18446744073709551615", "18446744073709551616", "x"] {
        assert_eq!(parse_usize(&chars_of(s)), s.parse::<usize>().ok(), "input {:?}", s);
    }
}

#[test]
fn starts_with_prefixes() {
    assert!(str_starts_with("HELO 12", "HELO"));
    assert!(!str_starts_with("HEL", "HELO"));
    assert!(str_starts_with("abc", ""));
}
