use bounds::text::{chars_of, contains_chars, replace_chars, split_lines, trim_chars};

fn cs(s: &str) -> Vec<char> {
    s.chars().collect()
}

fn st(v: &[char]) -> String {
    v.iter().collect()
}

#[test]
fn splits_lines_like_str_lines() {
    for text in ["", "a", "a\n", "a\nb", "a\r\nb\r\n", "\n\n", "x\r", " a \n\tb\n\n"] {
        let ours: Vec<String> = split_lines(&cs(text)).iter().map(|l| st(l)).collect();
        let std: Vec<String> = text.lines().map(str::to_owned).collect();
        assert_eq!(ours, std, "{text:?}");
    }
}

#[test]
fn trims_unicode_whitespace() {
    assert_eq!(st(&trim_chars(&cs("\u{3000} a b \u{a0}\t"))), "a b");
    assert_eq!(st(&trim_chars(&cs("   "))), "");
}

#[test]
fn finds_and_replaces_text() {
    assert!(contains_chars(&cs("hello"), &cs("ll")));
    assert!(!contains_chars(&cs("hello"), &cs("lo!")));
    assert!(contains_chars(&cs("x"), &cs("")));
    assert_eq!(st(&replace_chars(&cs("aaa"), &cs("aa"), &cs("b"))), "ba");
    assert_eq!(st(&chars_of("héllo")), "héllo");
}

#[test]
fn trimming_agrees_with_std() {
    for text in ["", " ", "a", " a ", "\t\n a b \r\n", "\u{85}x\u{2028}", "\u{180e}y"] {
        assert_eq!(st(&trim_chars(&cs(text))), text.trim(), "{text:?}");
    }
}
