use soul_core::text::{
    contains_str, ends_with_str, find_char, find_char_from, find_sub, parse_u16, parse_u32,
    parse_u64, split_lines, split_tokens, starts_with_str, str_eq, strip_char_ends,
    to_lower_ascii, trim_str,
};

#[test]
fn string_comparisons() {
    assert!(str_eq("abc", "abc"));
    assert!(!str_eq("abc", "abd"));
    assert!(!str_eq("abc", "ab"));
    assert!(str_eq("", ""));
    assert!(starts_with_str("prefix-rest", "prefix"));
    assert!(!starts_with_str("pre", "prefix"));
    assert!(starts_with_str("x", ""));
    assert!(ends_with_str("notes/SEED.md", "SEED.md"));
    assert!(!ends_with_str("SEED.md.bak", "SEED.md"));
    assert!(contains_str("a needle here", "needle"));
    assert!(!contains_str("nothing", "needle"));
    assert!(contains_str("abc", ""));
}

#[test]
fn searching() {
    assert_eq!(find_char("a:b:c", ':'), Some(1));
    assert_eq!(find_char("abc", ':'), None);
    assert_eq!(find_char_from("a:b:c", 2, ':'), Some(3));
    assert_eq!(find_char_from("a:b:c", 4, ':'), None);
    assert_eq!(find_sub("xxmodel:yy", "model:"), Some(2));
    assert_eq!(find_sub("xx", "model:"), None);
}

#[test]
fn trimming_and_stripping() {
    assert_eq!(trim_str("  a b \t\n"), "a b");
    assert_eq!(trim_str("ab"), "ab");
    assert_eq!(trim_str("   "), "");
    assert_eq!(trim_str(""), "");
    assert_eq!(strip_char_ends("\"\"quoted\"", '"'), "quoted");
    assert_eq!(strip_char_ends("plain", '"'), "plain");
    assert_eq!(strip_char_ends("''", '\''), "");
}

#[test]
fn line_splitting_matches_line_semantics() {
    let lines = split_lines("a\nb\r\n\nc");
    assert_eq!(lines, vec!["a", "b", "", "c"]);
    // no final empty line when the text ends with a line break
    assert_eq!(split_lines("a\n"), vec!["a"]);
    assert_eq!(split_lines(""), Vec::<String>::new());
    assert_eq!(split_lines("\n"), vec![""]);
    // a carriage return is only stripped before a line break
    assert_eq!(split_lines("a\r"), vec!["a\r"]);
}

#[test]
fn tokenising() {
    assert_eq!(split_tokens("  one\ttwo  three "), vec!["one", "two", "three"]);
    assert_eq!(split_tokens(""), Vec::<String>::new());
    assert_eq!(split_tokens("   "), Vec::<String>::new());
    assert_eq!(split_tokens("single"), vec!["single"]);
}

#[test]
fn number_parsing() {
    assert_eq!(parse_u64("0"), Some(0));
    assert_eq!(parse_u64("42"), Some(42));
    assert_eq!(parse_u64("18446744073709551615"), Some(u64::MAX));
    assert_eq!(parse_u64("18446744073709551616"), None);  // one past the largest
    assert_eq!(parse_u64(""), None);
    assert_eq!(parse_u64("4 2"), None);
    assert_eq!(parse_u64("-1"), None);
    assert_eq!(parse_u32("4294967295"), Some(u32::MAX));
    assert_eq!(parse_u32("4294967296"), None);
    assert_eq!(parse_u16("65535"), Some(u16::MAX));
    assert_eq!(parse_u16("65536"), None);
}

#[test]
fn lower_casing_is_ascii_only() {
    assert_eq!(to_lower_ascii("THINK"), "think");
    assert_eq!(to_lower_ascii("MiXeD-42"), "mixed-42");
    assert_eq!(to_lower_ascii(""), "");
}
