use meetcat::text::{
    find_char, find_sub, str_contains, str_eq, string_vecs_eq, tail_chars, trim_spaces, u64_to_dec,
};

#[test]
fn test_str_eq() {
    assert!(str_eq("abc", "abc"));
    assert!(!str_eq("abc", "abd"));
    assert!(!str_eq("abc", "abcd"));
    assert!(str_eq("", ""));
}

#[test]
fn test_str_contains() {
    assert!(str_contains("Team Standup", "Standup"));
    assert!(str_contains("1:1 with Manager", "1:1"));
    assert!(!str_contains("Team Standup", "1:1"));
    // every string contains the empty needle
    assert!(str_contains("anything", ""));
    assert!(!str_contains("short", "much longer needle"));
}

#[test]
fn test_u64_to_dec() {
    assert_eq!(u64_to_dec(0), "0");
    assert_eq!(u64_to_dec(7), "7");
    assert_eq!(u64_to_dec(30000), "30000");
    assert_eq!(u64_to_dec(18446744073709551615), "18446744073709551615");
}

#[test]
fn test_trim_spaces() {
    assert_eq!(trim_spaces("  hello  "), "hello");
    assert_eq!(trim_spaces("hello"), "hello");
    assert_eq!(trim_spaces("   "), "");
    assert_eq!(trim_spaces("\t a b \n"), "a b");
}

#[test]
fn test_tail_chars() {
    assert_eq!(tail_chars("abcdef", 4), "cdef");
    assert_eq!(tail_chars("ab", 4), "ab");
    assert_eq!(tail_chars("abcdef", 0), "");
}

#[test]
fn test_find_sub() {
    assert_eq!(find_sub("https://x", "://"), Some(5));
    assert_eq!(find_sub("no scheme", "://"), None);
    assert_eq!(find_sub("aaa", "a"), Some(0));
}

#[test]
fn test_find_char() {
    assert_eq!(find_char("meet.google.com/x", '/'), Some(15));
    assert_eq!(find_char("meet.google.com", '/'), None);
}

#[test]
fn test_string_vecs_eq() {
    let a = vec!["x".to_string(), "y".to_string()];
    let b = vec!["x".to_string(), "y".to_string()];
    let c = vec!["x".to_string()];
    assert!(string_vecs_eq(&a, &b));
    assert!(!string_vecs_eq(&a, &c));
}
