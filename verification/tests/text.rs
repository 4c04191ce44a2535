use lr2::decimal::{push_decimal, read_isize, read_u32};
use lr2::text::{
    char_is_whitespace, copy_range, has_pair, push_all, push_str, split_lines, split_on, to_chars, to_string,
    trimmed, trimmed_end_char,
};

fn chars(s: &str) -> Vec<char> {
    s.chars().collect()
}

fn strings(v: Vec<Vec<char>>) -> Vec<String> {
    v.iter().map(|p| p.iter().collect()).collect()
}

const SAMPLES: [&str; 16] = [
    "",
    " ",
    "a",
    " a ",
    "\t a b \r\n",
    "|",
    "||",
    "a|b",
    "|a|b|",
    " | a | a>1 | \u{a0}",
    "\n",
    "a\nb",
    "a\r\nb\r\n",
    "a\rb\n\n\r\nc\r",
    "\u{2003}x\u{3000}",
    "--:-",
];

#[test]
fn whitespace_agrees_with_std() {
    for code in 0..=0x10FFFFu32 {
        if let Some(c) = char::from_u32(code) {
            assert_eq!(char_is_whitespace(c), c.is_whitespace());
        }
    }
}

#[test]
fn trim_agrees_with_std() {
    for s in SAMPLES {
        assert_eq!(to_string(&trimmed(&chars(s))), s.trim());
        assert_eq!(to_string(&trimmed_end_char(&chars(s), '|')), s.trim_end_matches('|'));
    }
}

#[test]
fn split_agrees_with_std() {
    for s in SAMPLES {
        let expected: Vec<String> = s.split('|').map(|p| p.to_string()).collect();
        assert_eq!(strings(split_on(&chars(s), '|')), expected);
    }
    assert_eq!(strings(split_on(&chars("a|b||"), '|')), vec!["a", "b", "", ""]);
}

#[test]
fn lines_agree_with_std() {
    for s in SAMPLES {
        let expected: Vec<String> = s.lines().map(|p| p.to_string()).collect();
        assert_eq!(strings(split_lines(&chars(s))), expected);
    }
    assert_eq!(strings(split_lines(&chars("a\r\n\nb\n"))), vec!["a", "", "b"]);
}

#[test]
fn pair_search_agrees_with_std() {
    for s in SAMPLES {
        assert_eq!(has_pair(&chars(s), '-', '-'), s.contains("--"));
        assert_eq!(has_pair(&chars(s), ':', '-'), s.contains(":-"));
        assert_eq!(has_pair(&chars(s), 'a', '|'), s.contains("a|"));
    }
}

#[test]
fn conversions_keep_the_characters() {
    for s in SAMPLES {
        assert_eq!(to_chars(s), chars(s));
        assert_eq!(to_string(&chars(s)), s);
    }
    assert_eq!(copy_range(&chars("abcdef"), 2, 4), chars("cd"));
    assert_eq!(copy_range(&chars("abcdef"), 3, 3), chars(""));
    let mut out = chars("ab");
    push_all(&mut out, &chars("cd"));
    push_str(&mut out, "é!");
    assert_eq!(out, chars("abcdé!"));
}

#[test]
fn decimal_agrees_with_std() {
    for n in [0u64, 1, 9, 10, 11, 99, 100, 101, 4294967295, 4294967296, u64::MAX] {
        let mut out = chars("n=");
        push_decimal(&mut out, n);
        assert_eq!(to_string(&out), format!("n={}", n));
    }
}

#[test]
fn numbers_agree_with_std() {
    for s in [
        "", "0", "00", "7", "+7", "-7", "++7", "+", "-", "12a", " 12", "12 ", "4294967295", "4294967296",
        "9223372036854775807", "9223372036854775808", "-9223372036854775808", "-9223372036854775809",
        "18446744073709551616", "-0", "+0", "１２",
    ] {
        assert_eq!(read_u32(&chars(s)), s.parse::<u32>().ok());
        assert_eq!(read_isize(&chars(s)), s.parse::<isize>().ok());
    }
}
