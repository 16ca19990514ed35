use dns_cli::text::{
    chars_of, decimal_text, has_name_prefix, join, parent_zone_name, same_text, starts_with,
};

#[test]
fn parent_zone_of_three_labels() {
    assert_eq!(parent_zone_name("sub.example.com"), Some("example.com".to_string()));
}

#[test]
fn parent_zone_is_the_two_trailing_labels() {
    assert_eq!(parent_zone_name("a.b.example.com"), Some("example.com".to_string()));
    assert_eq!(parent_zone_name("x.y.z.example.org"), Some("example.org".to_string()));
}

#[test]
fn parent_zone_needs_three_labels() {
    assert_eq!(parent_zone_name("example.com"), None);
    assert_eq!(parent_zone_name("localhost"), None);
    assert_eq!(parent_zone_name(""), None);
    assert_eq!(parent_zone_name("."), None);
}

#[test]
fn parent_zone_keeps_empty_labels() {
    assert_eq!(parent_zone_name("a..b"), Some(".b".to_string()));
    assert_eq!(parent_zone_name(".."), Some(".".to_string()));
    assert_eq!(parent_zone_name("sub.example.com."), Some("com.".to_string()));
}

#[test]
fn parent_zone_counts_characters_not_bytes() {
    assert_eq!(parent_zone_name("süb.exämple.cöm"), Some("exämple.cöm".to_string()));
}

#[test]
fn chars_of_gives_every_character() {
    assert_eq!(chars_of("aé.z"), vec!['a', 'é', '.', 'z']);
    assert_eq!(chars_of(""), Vec::<char>::new());
}

#[test]
fn name_prefix_is_exact_or_ends_at_a_dot() {
    let name = "sub.example.com".to_string();
    assert!(has_name_prefix(&name, &"sub".to_string()));
    assert!(has_name_prefix(&name, &"sub.example".to_string()));
    assert!(has_name_prefix(&name, &"sub.example.com".to_string()));
    assert!(!has_name_prefix(&name, &"su".to_string()));
    assert!(!has_name_prefix(&name, &"sub.ex".to_string()));
    assert!(!has_name_prefix(&name, &"sub.example.com.".to_string()));
    assert!(!has_name_prefix(&name, &"example.com".to_string()));
    assert!(!has_name_prefix(&"subway.example.com".to_string(), &"sub".to_string()));
    assert!(!has_name_prefix(&name, &"".to_string()));
    assert!(has_name_prefix(&".hidden".to_string(), &"".to_string()));
    assert!(has_name_prefix(&"".to_string(), &"".to_string()));
}

#[test]
fn starts_with_compares_the_front() {
    assert!(starts_with("example.com", "example"));
    assert!(starts_with("example.com", ""));
    assert!(starts_with("example.com", "example.com"));
    assert!(!starts_with("example.com", "example.com."));
    assert!(!starts_with("example.com", "xample"));
    assert!(!starts_with("", "a"));
}

#[test]
fn same_text_compares_all_characters() {
    assert!(same_text("abc", "abc"));
    assert!(same_text("", ""));
    assert!(!same_text("abc", "abd"));
    assert!(!same_text("abc", "ab"));
    assert!(!same_text("ab", "abc"));
    assert!(!same_text("A", "a"));
}

#[test]
fn join_puts_one_text_after_the_other() {
    assert_eq!(join("Bearer ", "token"), "Bearer token");
    assert_eq!(join("", "x"), "x");
    assert_eq!(join("x", ""), "x");
}

#[test]
fn numbers_are_written_in_decimal() {
    assert_eq!(decimal_text(0), "0");
    assert_eq!(decimal_text(7), "7");
    assert_eq!(decimal_text(10), "10");
    assert_eq!(decimal_text(404), "404");
    assert_eq!(decimal_text(1000), "1000");
    assert_eq!(decimal_text(65535), "65535");
}
