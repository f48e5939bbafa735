use rubypass::text::{
    dec_string, ends_with, eq_ignore_ascii_case, find_seq, is_whitespace, join_strings, lines,
    nonempty_lines, parse_unsigned, split_chars, starts_with, trim, trim_brackets, trim_end_dots,
    trim_start_matches, words,
};

fn chars(s: &str) -> Vec<char> {
    s.chars().collect()
}

fn strs(v: Vec<Vec<char>>) -> Vec<String> {
    v.into_iter().map(|c| c.into_iter().collect()).collect()
}

const SAMPLES: &[&str] = &[
    "", "a", "a\nb", "a\r\nb\r\n", "\n", "\n\n", "x\r", "\r\n\r\n", " lead and trail ",
    "tab\tsep\u{a0}nbsp\u{3000}ideo", "a|b||c|", "|", "..", "[::1]", "  \u{2028} ",
];

#[test]
fn whitespace_agrees_with_std() {
    for c in ['\t', '\n', ' ', '\u{85}', '\u{a0}', '\u{1680}', '\u{2000}', '\u{200a}', '\u{200b}',
              '\u{2028}', '\u{202f}', '\u{205f}', '\u{3000}', 'a', '\u{feff}', '\u{180e}'] {
        assert_eq!(is_whitespace(c), c.is_whitespace(), "{:?}", c);
    }
}

#[test]
fn splitting_agrees_with_std() {
    for s in SAMPLES {
        let c = chars(s);
        assert_eq!(strs(split_chars(&c, '|')), s.split('|').map(String::from).collect::<Vec<_>>());
        assert_eq!(strs(lines(&c)), s.lines().map(String::from).collect::<Vec<_>>(), "{:?}", s);
        assert_eq!(strs(words(&c)), s.split_whitespace().map(String::from).collect::<Vec<_>>());
        assert_eq!(trim(&c), chars(s.trim()));
        assert_eq!(trim_brackets(&c), chars(s.trim_matches(['[', ']'])));
        assert_eq!(trim_end_dots(&c), chars(s.trim_end_matches('.')));
        assert_eq!(
            nonempty_lines(s),
            s.lines().filter(|l| !l.is_empty()).map(String::from).collect::<Vec<_>>()
        );
    }
}

#[test]
fn parsing_numbers_agrees_with_std() {
    for s in ["0", "255", "256", "+7", "-1", "", "+", "00012", "65535", "65536", "4294967295", "4294967296", "1 "] {
        let c = chars(s);
        assert_eq!(parse_unsigned(&c, 255), s.parse::<u8>().ok().map(u64::from), "{}", s);
        assert_eq!(parse_unsigned(&c, 65535), s.parse::<u16>().ok().map(u64::from), "{}", s);
        assert_eq!(parse_unsigned(&c, u32::MAX as u64), s.parse::<u32>().ok().map(u64::from), "{}", s);
    }
    for n in [0u64, 9, 10, 99, 100, 17890, u32::MAX as u64] {
        assert_eq!(dec_string(n), chars(&n.to_string()));
    }
}

#[test]
fn prefixes_suffixes_and_patterns() {
    assert!(starts_with(&chars("http://x"), &chars("http://")));
    assert!(!starts_with(&chars("http"), &chars("http://")));
    assert!(ends_with(&chars("a.ru"), &chars(".ru")));
    assert!(!ends_with(&chars("ru"), &chars(".ru")));
    assert_eq!(trim_start_matches(&chars("http://http://x"), &chars("http://")), chars("x"));
    assert!(eq_ignore_ascii_case(&chars("HTTPS"), &chars("https")));
    assert!(!eq_ignore_ascii_case(&chars("https"), &chars("http")));
    assert_eq!(find_seq(&chars("ab\r\ncd\r\n"), &chars("\r\n")), Some(2));
    assert_eq!(find_seq(&chars("abc"), &chars("")), Some(0));
    assert_eq!(find_seq(&chars("abc"), &chars("cd")), None);
}

#[test]
fn joining_and_reading_back() {
    let list = vec!["a".to_string(), "b c".to_string()];
    let text = join_strings(&list, '\n');
    assert_eq!(text, "a\nb c");
    assert_eq!(nonempty_lines(&text), list);
    assert_eq!(join_strings(&[], '\n'), "");
}
