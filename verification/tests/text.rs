use rcgi::text::{
    decimal, equal_ignore_ascii_case, parse_usize, split, splitn, trim, trim_start, Strip,
};

fn chars(s: &str) -> Vec<char> {
    s.chars().collect()
}

fn strings(v: Vec<Vec<char>>) -> Vec<String> {
    v.into_iter().map(|p| p.into_iter().collect()).collect()
}

#[test]
fn parse_usize_like_from_str() {
    for s in ["0", "7", "+5", "007", "131072", "18446744073709551615", "", "+", "-", "-1", "++1", "1a", " 1", "18446744073709551616", "٣"] {
        assert_eq!(parse_usize(&chars(s)), s.parse::<usize>().ok(), "{:?}", s);
    }
}

#[test]
fn decimal_text() {
    for n in [0u64, 9, 10, 65535, u64::MAX] {
        let text: String = decimal(n).into_iter().collect();
        assert_eq!(text, n.to_string());
        assert_eq!(parse_usize(&decimal(n)), Some(n as usize));
    }
}

#[test]
fn splitting_like_str() {
    for (s, n) in [("a b c d", 3usize), ("abc", 3), ("", 2), ("a  b", 3), ("x:y:z", 2)] {
        let sep = if s.contains(':') { ':' } else { ' ' };
        let expected: Vec<String> = s.splitn(n, sep).map(|p| p.to_string()).collect();
        assert_eq!(strings(splitn(&chars(s), n, sep)), expected);
    }
    for s in ["a&b&&c", "", "&", "abc"] {
        let expected: Vec<String> = s.split('&').map(|p| p.to_string()).collect();
        assert_eq!(strings(split(&chars(s), '&')), expected);
    }
}

#[test]
fn trimming_like_str() {
    for s in [" \t a b \n", "", "\u{3000}x\u{a0}", "\r\nline\r\n", "ab"] {
        let t: String = trim(Strip::WhiteSpace, &chars(s)).into_iter().collect();
        assert_eq!(t, s.trim());
        let t: String = trim_start(Strip::WhiteSpace, &chars(s)).into_iter().collect();
        assert_eq!(t, s.trim_start());
        let t: String = trim(Strip::LineEnd, &chars(s)).into_iter().collect();
        assert_eq!(t, s.trim_matches(|c| c == '\n' || c == '\r'));
    }
}

#[test]
fn ascii_case_comparison() {
    assert!(equal_ignore_ascii_case(&chars("Key-ONE"), &chars("key-one")));
    assert!(!equal_ignore_ascii_case(&chars("Kéy"), &chars("KÉY")));
    assert!(!equal_ignore_ascii_case(&chars("ab"), &chars("abc")));
}
