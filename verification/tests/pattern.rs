use termrec::pattern::{find_all, find_first, group_chars};

#[test]
fn all_matches_in_order() {
    let ms = find_all(r"(\d+)([a-z])?", "12a 7 345b");
    assert_eq!(ms.len(), 3);
    assert_eq!(ms[0], vec![Some("12a".to_string()), Some("12".to_string()), Some("a".to_string())]);
    assert_eq!(ms[1], vec![Some("7".to_string()), Some("7".to_string()), None]);
    assert_eq!(ms[2][1].as_deref(), Some("345"));
}

#[test]
fn bad_pattern_matches_nothing() {
    assert!(find_all("(unclosed", "unclosed").is_empty());
    assert_eq!(find_first("(unclosed", "unclosed"), None);
}

#[test]
fn first_match_and_groups() {
    let m = find_first(r"CPU\s+(\d+)", "x CPU 42 CPU 7").unwrap();
    assert_eq!(m[1].as_deref(), Some("42"));
    assert_eq!(group_chars(&m, 1), Some(vec!['4', '2']));
    assert_eq!(group_chars(&m, 2), None);
    assert_eq!(find_first(r"\d", "none"), None);
}
