use meow::text::{
    chars_of, line_ranges, parse_i32_range, parse_i64_range, replace_text, text_contains,
    text_equals, trim_range,
};

fn lines_of(s: &str) -> Vec<String> {
    let cs = chars_of(s);
    line_ranges(&cs)
        .iter()
        .map(|&(lo, hi)| cs[lo..hi].iter().collect::<String>())
        .collect()
}

fn parse64(s: &str) -> Option<i64> {
    let cs = chars_of(s);
    parse_i64_range(&cs, 0, cs.len())
}

fn parse32(s: &str) -> Option<i32> {
    let cs = chars_of(s);
    parse_i32_range(&cs, 0, cs.len())
}

#[test]
fn lines_split_like_str_split() {
    for s in ["", "a", "a\nb", "a\nb\n", "\n\n", "x\n\ny", "ü\nß"] {
        let expected: Vec<String> = s.split('\n').map(|l| l.to_string()).collect();
        assert_eq!(lines_of(s), expected, "splitting {:?}", s);
    }
}

#[test]
fn chars_of_unicode() {
    assert_eq!(chars_of("aé€"), vec!['a', 'é', '€']);
}

#[test]
fn contains_finds_patterns() {
    assert!(text_contains("https://x/$repo/os/$arch", "$repo"));
    assert!(text_contains("abc", ""));
    assert!(text_contains("", ""));
    assert!(!text_contains("", "a"));
    assert!(!text_contains("ab", "abc"));
    assert!(text_contains("aab", "ab"));
    assert!(!text_contains("a$rep", "$repo"));
}

#[test]
fn equals_compares_text() {
    assert!(text_equals("install", "install"));
    assert!(!text_equals("install", "instal"));
    assert!(text_equals("", ""));
}

#[test]
fn replace_matches_str_replace() {
    let cases = [
        ("https://m/$repo/os/$arch", "$repo", "core"),
        ("$repo$repo", "$repo", "x"),
        ("aaa", "aa", "b"),
        ("no placeholder", "$arch", "x86_64"),
        ("pkg.tar.zst.tar.zst", ".tar.zst", ".tar"),
        ("", "$repo", "x"),
        ("é$arché", "$arch", "ü"),
    ];
    for (s, from, to) in cases {
        assert_eq!(replace_text(s, from, to), s.replace(from, to), "replacing in {:?}", s);
    }
}

#[test]
fn parse_integers_like_str_parse() {
    let cases = [
        "0", "42", "+7", "-7", "-0", "", "+", "-", "1a", " 1", "1 ", "007",
        "9223372036854775807", "9223372036854775808", "-9223372036854775808",
        "-9223372036854775809", "99999999999999999999999", "2147483647", "2147483648",
        "-2147483648", "-2147483649", "--1", "+-1", "１",
    ];
    for s in cases {
        assert_eq!(parse64(s), s.parse::<i64>().ok(), "parsing {:?} as i64", s);
        assert_eq!(parse32(s), s.parse::<i32>().ok(), "parsing {:?} as i32", s);
    }
}

#[test]
fn trim_like_str_trim() {
    for s in ["", "  ", " y ", "\ty\n", "\u{3000}Y\u{a0}", "a b", "\u{2028}x"] {
        let cs = chars_of(s);
        let (lo, hi) = trim_range(&cs);
        let trimmed: String = cs[lo..hi].iter().collect();
        assert_eq!(trimmed, s.trim(), "trimming {:?}", s);
    }
}
