use steamlite::text::{
    chars_of, contains, ends_with, find, index_of_char, lines, parse_u64, parse_u8, split_char,
    starts_with, string_of, to_decimal, to_lowercase, trim, trim_char, trim_start,
};

fn c(s: &str) -> Vec<char> {
    s.chars().collect()
}

fn s(v: &[char]) -> String {
    v.iter().collect()
}

#[test]
fn trim_removes_unicode_whitespace_at_both_ends() {
    assert_eq!(s(&trim(&c(" \t\u{3000}abc d\r\n\u{a0}"))), "abc d");
    assert_eq!(s(&trim(&c("   "))), "");
    assert_eq!(s(&trim_start(&c("\t  x  "))), "x  ");
}

#[test]
fn trim_char_strips_quotes_only_at_the_ends() {
    assert_eq!(s(&trim_char(&c("\"\"570\"\""), '"')), "570");
    assert_eq!(s(&trim_char(&c("\"a\"b\""), '"')), "a\"b");
    assert_eq!(s(&trim_char(&c("\"\"\""), '"')), "");
}

#[test]
fn lines_follow_str_lines() {
    let got: Vec<String> = lines(&c("a\r\nb\n\nc\rd\n")).iter().map(|l| s(l)).collect();
    let want: Vec<String> = "a\r\nb\n\nc\rd\n".lines().map(|l| l.to_string()).collect();
    assert_eq!(got, want);
    assert_eq!(got, vec!["a", "b", "", "c\rd"]);
    assert!(lines(&c("")).is_empty());
    let last: Vec<String> = lines(&c("x\ny")).iter().map(|l| s(l)).collect();
    assert_eq!(last, vec!["x", "y"]);
}

#[test]
fn split_follows_str_split() {
    let t = "\"Playtime\"\t\t\"1234\"";
    let got: Vec<String> = split_char(&c(t), '"').iter().map(|p| s(p)).collect();
    let want: Vec<String> = t.split('"').map(|p| p.to_string()).collect();
    assert_eq!(got, want);
    assert_eq!(got[3], "1234");
}

#[test]
fn find_contains_and_affixes() {
    assert_eq!(find(&c("ab\"appid\"x"), &c("\"appid\"")), Some(2));
    assert_eq!(find(&c("abc"), &c("abcd")), None);
    assert_eq!(find(&c("abc"), &c("")), Some(0));
    assert!(contains(&c("hello world"), &c("o w")));
    assert!(!contains(&c("hello"), &c("world")));
    assert!(starts_with(&c("appmanifest_570.acf"), &c("appmanifest_")));
    assert!(ends_with(&c("appmanifest_570.acf"), &c(".acf")));
    assert!(!ends_with(&c("acf"), &c(".acf")));
    assert_eq!(index_of_char(&c("a\tb\tc"), '\t'), Some(1));
    assert_eq!(index_of_char(&c("abc"), '\t'), None);
}

#[test]
fn parse_u64_follows_str_parse() {
    for t in ["0", "42", "+5", "-5", "", "+", "18446744073709551615", "18446744073709551616", "1a", " 1", "007"] {
        assert_eq!(parse_u64(&c(t)), t.parse::<u64>().ok(), "input {:?}", t);
    }
    assert_eq!(parse_u64(&c("+5")), Some(5));
    assert_eq!(parse_u64(&c("18446744073709551616")), None);
}

#[test]
fn parse_u8_follows_str_parse() {
    for t in ["0", "255", "256", "3", "+1", "-0", "x"] {
        assert_eq!(parse_u8(&c(t)), t.parse::<u8>().ok(), "input {:?}", t);
    }
}

#[test]
fn decimal_formatting_and_round_trip() {
    for n in [0u64, 7, 10, 570, 1234567890, u64::MAX] {
        let d = to_decimal(n);
        assert_eq!(d, n.to_string());
        assert_eq!(parse_u64(&c(&d)), Some(n));
    }
}

#[test]
fn lowercase_is_unicode_lowercase() {
    assert_eq!(s(&to_lowercase(&c("\"APPS\""))), "\"apps\"");
    assert_eq!(s(&to_lowercase(&c("ÉCOLE"))), "école");
    assert_eq!(s(&to_lowercase(&c(""))), "");
}

#[test]
fn chars_and_strings_convert_both_ways() {
    assert_eq!(chars_of("año"), vec!['a', 'ñ', 'o']);
    assert_eq!(string_of(&['a', 'ñ', 'o']), "año");
}

#[test]
fn whitespace_is_char_is_whitespace() {
    for u in 0u32..=0x10FFFF {
        if let Some(ch) = char::from_u32(u) {
            assert_eq!(steamlite::text::is_whitespace(ch), ch.is_whitespace(), "U+{:04X}", u);
        }
    }
}

#[test]
fn trim_matches_str_trim() {
    for t in ["  a b  ", "\u{85}x\u{2028}", "\u{200B}y\u{200B}", "", "\u{3000}\u{3000}"] {
        assert_eq!(s(&trim(&c(t))), t.trim(), "input {:?}", t);
        assert_eq!(s(&trim_start(&c(t))), t.trim_start(), "input {:?}", t);
    }
}
