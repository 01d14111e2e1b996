use thanos::text::{before_first_chars, lower_chars, split_chars, trim_chars, utf8_len_is_two, CharClass};

fn chars(s: &str) -> Vec<char> {
    s.chars().collect()
}

fn string(v: &[char]) -> String {
    v.iter().collect()
}

#[test]
fn trims_like_std() {
    for text in ["  a b  ", "\u{3000}x\u{a0}", "\t\n\r\u{85}", "", "x", " \u{2028}y\u{202f} ", "\u{200b}z"] {
        let ours = string(&trim_chars(&chars(text), CharClass::Whitespace));
        assert_eq!(ours, text.trim(), "{text:?}");
    }
}

#[test]
fn trims_given_char_like_std() {
    for text in ["\"127.0.0.1:80\"", "\"\"a\"", "'x'", "\"", ""] {
        let ours = string(&trim_chars(&chars(text), CharClass::Exactly('"')));
        assert_eq!(ours, text.trim_matches('"'), "{text:?}");
    }
}

#[test]
fn splits_like_std() {
    for text in ["a;b;;c", "", ";", "abc", "a;", ";a"] {
        let ours: Vec<String> = split_chars(&chars(text), ';').iter().map(|p| string(p)).collect();
        let std: Vec<String> = text.split(';').map(|s| s.to_string()).collect();
        assert_eq!(ours, std, "{text:?}");
    }
}

#[test]
fn cuts_before_first() {
    assert_eq!(string(&before_first_chars(&chars("port = 1 # x # y"), '#')), "port = 1 ");
    assert_eq!(string(&before_first_chars(&chars("no comment"), '#')), "no comment");
    assert_eq!(string(&before_first_chars(&chars("#all"), '#')), "");
}

#[test]
fn lowers_ascii_only() {
    assert_eq!(string(&lower_chars(&chars("TProxy ÄÖ"))), "tproxy ÄÖ");
}

#[test]
fn two_utf8_bytes() {
    assert!(utf8_len_is_two(&chars("[]")));
    assert!(utf8_len_is_two(&chars("é")));
    assert!(!utf8_len_is_two(&chars("€")));
    assert!(!utf8_len_is_two(&chars("[a]")));
    assert!(!utf8_len_is_two(&chars("a")));
}
