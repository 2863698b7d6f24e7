use vibe_manager::text::{decimal_string, lower_string, str_contains, str_starts_with, trim_string};

#[test]
fn trims_unicode_whitespace_on_both_ends() {
    assert_eq!(trim_string("  \t npm run dev \n"), "npm run dev");
    assert_eq!(trim_string("\u{3000}API\u{a0}"), "API");
    assert_eq!(trim_string("   "), "");
    assert_eq!(trim_string("a b"), "a b");
}

#[test]
fn lowers_ascii_letters_only() {
    assert_eq!(lower_string("Node.EXE"), "node.exe");
    assert_eq!(lower_string("ÄB"), "Äb");
}

#[test]
fn finds_substrings_and_prefixes() {
    assert!(str_contains("python3.11", "python"));
    assert!(str_contains("abc", ""));
    assert!(!str_contains("no", "node"));
    assert!(str_starts_with("https://x", "https://"));
    assert!(!str_starts_with("http", "https://"));
}

#[test]
fn writes_decimal_numbers() {
    assert_eq!(decimal_string(0), "0");
    assert_eq!(decimal_string(5173), "5173");
    assert_eq!(decimal_string(18446744073709551615), "18446744073709551615");
}
