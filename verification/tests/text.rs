use powderman::text::{chars_of, contains, decimal_string, push_decimal, push_str, slice_of, space, str_eq, string_of, trim};

#[test]
fn characters_round_trip_through_a_string() {
    let cs = chars_of("h\u{e9}llo");
    assert_eq!(cs, vec!['h', '\u{e9}', 'l', 'l', 'o']);
    assert_eq!(string_of(&cs), "h\u{e9}llo");
    assert_eq!(string_of(&slice_of(&cs, 1, 3)), "\u{e9}l");
}

#[test]
fn trimming_drops_unicode_white_space_at_both_ends() {
    assert_eq!(trim("  a b \t\n"), "a b");
    assert_eq!(trim("\u{3000}x\u{a0}"), "x");
    assert_eq!(trim("   "), "");
    assert!(space('\u{2028}'));
    assert!(!space('x'));
}

#[test]
fn numbers_print_in_decimal() {
    assert_eq!(decimal_string(0), "0");
    assert_eq!(decimal_string(1234567890), "1234567890");
    assert_eq!(decimal_string(u64::MAX), "18446744073709551615");
    let mut s = String::from("n=");
    push_decimal(&mut s, 42);
    push_str(&mut s, "!");
    assert_eq!(s, "n=42!");
}

#[test]
fn strings_compare_and_search_by_characters() {
    assert!(str_eq("abc", "abc"));
    assert!(!str_eq("abc", "abd"));
    assert!(!str_eq("ab", "abc"));
    assert_eq!(powderman::text::concat("foo", "bar"), "foobar");
    assert!(contains("not an available shell", "available"));
    assert!(contains("abc", ""));
    assert!(!contains("abc", "abcd"));
}
