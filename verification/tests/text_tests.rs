use shred_graphique::text::{
    chars_of, contains_chars, lines, parse_u64_chars, push_decimal, split_whitespace, string_of,
    trimmed,
};

fn v(s: &str) -> Vec<char> {
    s.chars().collect()
}

#[test]
fn lines_like_str_lines() {
    for s in ["", "a", "a\n", "a\r\nb", "a\n\nb\r", "\n", "x\r\r\n y", "é\u{2028}\nz"] {
        let got: Vec<String> = lines(&v(s)).iter().map(|l| l.iter().collect()).collect();
        let want: Vec<String> = s.lines().map(|l| l.to_string()).collect();
        assert_eq!(got, want, "{:?}", s);
    }
}

#[test]
fn words_like_split_whitespace() {
    for s in ["", "  a b\tc ", "x\u{3000}y\u{a0}z", "one"] {
        let got: Vec<String> = split_whitespace(&v(s)).iter().map(|l| l.iter().collect()).collect();
        let want: Vec<String> = s.split_whitespace().map(|l| l.to_string()).collect();
        assert_eq!(got, want, "{:?}", s);
    }
}

#[test]
fn trim_like_str_trim() {
    for s in ["", "  ", " a b ", "\u{2003}x\n", "y"] {
        let got: String = trimmed(&v(s)).iter().collect();
        assert_eq!(got, s.trim(), "{:?}", s);
    }
}

#[test]
fn numbers_like_u64() {
    for s in ["0", "+12", "12a", "", "+", "-1", "18446744073709551615", "18446744073709551616", "007"] {
        assert_eq!(parse_u64_chars(&v(s)), s.parse::<u64>().ok(), "{:?}", s);
    }
    for n in [0u64, 7, 10, 1234567890, u64::MAX] {
        let mut s = String::from(">");
        push_decimal(&mut s, n);
        assert_eq!(s, format!(">{}", n));
    }
}

#[test]
fn search_and_conversions() {
    assert!(contains_chars(&v("abcabd"), &v("abd")));
    assert!(contains_chars(&v("abc"), &v("")));
    assert!(!contains_chars(&v("ab"), &v("abc")));
    assert_eq!(chars_of("héllo"), v("héllo"));
    assert_eq!(string_of(&v("héllo")), "héllo");
}
