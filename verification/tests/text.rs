//! Text primitives, held against the standard library's.
use akagi_native::text::{
    chars_of, decimal_text, first_chars, is_whitespace, lines, replace_all, text_of, trim,
    trim_end_char,
};

#[test]
fn white_space_is_unicodes() {
    for n in 0..=0x10ffffu32 {
        if let Some(c) = char::from_u32(n) {
            assert_eq!(is_whitespace(c), c.is_whitespace(), "{n:x}");
        }
    }
}

const TEXTS: [&str; 12] = [
    "",
    " ",
    "a",
    " a b ",
    "\t\u{3000}x\u{a0}\n",
    "a\nb",
    "a\r\nb\r\n",
    "\n\n",
    "a\r",
    "a\r\r\nb",
    "é\n\u{2028}b",
    "\r\n",
];

#[test]
fn trimming() {
    for s in TEXTS {
        assert_eq!(trim(s), s.trim(), "{s:?}");
        assert_eq!(trim_end_char(s, '\n'), s.trim_end_matches('\n'), "{s:?}");
    }
    assert_eq!(trim_end_char("a//", '/'), "a");
    assert_eq!(trim_end_char("//", '/'), "");
    assert_eq!(trim_end_char("a/b", '/'), "a/b");
}

#[test]
fn splitting_into_lines() {
    for s in TEXTS {
        let expected: Vec<&str> = s.lines().collect();
        assert_eq!(lines(s), expected, "{s:?}");
    }
}

#[test]
fn replacing() {
    let cases = [
        ("aaa", "aa", "b"),
        ("xaax", "a", ""),
        ("", "a", "b"),
        ("abc", "abc", "abcabc"),
        ("日本", "本", "x"),
        ("no", "yes", "x"),
    ];
    for (s, from, to) in cases {
        assert_eq!(replace_all(s, from, to), s.replace(from, to));
    }
}

#[test]
fn replacing_a_quoted_word_is_undone() {
    for s in [r#"{"type":"kita"}"#, r#""kita"kita""#, "kita", "", r#"""kita"""#] {
        let there = replace_all(s, r#""kita""#, r#""nukidora""#);
        assert_eq!(replace_all(&there, r#""nukidora""#, r#""kita""#), s);
    }
}

#[test]
fn numerals() {
    for n in [0, 7, 10, 99, 100, 429, 65535, u64::MAX] {
        assert_eq!(decimal_text(n), n.to_string());
    }
}

#[test]
fn characters() {
    assert_eq!(chars_of("aé日"), vec!['a', 'é', '日']);
    assert_eq!(text_of(&vec!['a', 'b', 'c'], 1, 3), "bc");
    assert_eq!(first_chars("aé日", 2), "aé");
    assert_eq!(first_chars("ab", 5), "ab");
    assert_eq!(first_chars("ab", 0), "");
}
