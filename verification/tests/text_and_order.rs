use launch_apps::order::{insert_unique, is_less, sort_unique};
use launch_apps::text::{
    chars_of, contains_text, decimal_text, ends_with_text, signed_text,
};

fn strings(v: &[&str]) -> Vec<String> {
    v.iter().map(|s| s.to_string()).collect()
}

#[test]
fn chars_are_code_points() {
    assert_eq!(chars_of("a记\u{1d11e}"), vec!['a', '记', '\u{1d11e}']);
    assert_eq!(chars_of(""), Vec::<char>::new());
}

#[test]
fn parts_are_found_anywhere() {
    assert!(contains_text("world of warcraft", "of war"));
    assert!(contains_text("记事本 - 无标题", "事本"));
    assert!(contains_text("abc", ""));
    assert!(contains_text("", ""));
    assert!(contains_text("aab", "ab"));
    assert!(!contains_text("abc", "abcd"));
    assert!(!contains_text("abc", "ac"));
}

#[test]
fn suffixes_are_found_at_the_end_only() {
    assert!(ends_with_text("wow.exe", ".exe"));
    assert!(ends_with_text(".exe", ".exe"));
    assert!(!ends_with_text("exe", ".exe"));
    assert!(!ends_with_text("wow.exe.bak", ".exe"));
    assert!(ends_with_text("anything", ""));
}

#[test]
fn numerals_are_decimal() {
    assert_eq!(decimal_text(0), "0");
    assert_eq!(decimal_text(60_000), "60000");
    assert_eq!(decimal_text(1_234_567_890), "1234567890");
    assert_eq!(decimal_text(u64::MAX), "18446744073709551615");
    assert_eq!(signed_text(-7), "-7");
    assert_eq!(signed_text(i32::MIN), "-2147483648");
    assert_eq!(signed_text(i32::MAX), "2147483647");
}

#[test]
fn texts_are_ordered_as_strings_are() {
    let all = ["", "a", "ab", "abc", "b", "wow-64.exe", "wow.exe", "é", "记", "\u{ffff}", "\u{1d11e}"];
    for a in all.iter() {
        for b in all.iter() {
            assert_eq!(is_less(a, b), a < b, "{} {}", a, b);
        }
    }
}

#[test]
fn insertion_keeps_order_and_uniqueness() {
    let mut v = strings(&["b", "d"]);
    insert_unique(&mut v, "c".to_string());
    insert_unique(&mut v, "a".to_string());
    insert_unique(&mut v, "e".to_string());
    insert_unique(&mut v, "c".to_string());
    assert_eq!(v, strings(&["a", "b", "c", "d", "e"]));
}

#[test]
fn sorting_agrees_with_the_standard_library() {
    let parts = strings(&["wow.exe", "b", "wow-64.exe", "b", "", "记", "a", "a"]);
    let mut expected = parts.clone();
    expected.sort_unstable();
    expected.dedup();
    assert_eq!(sort_unique(&parts), expected);
    assert_eq!(sort_unique(&expected), expected);
}
