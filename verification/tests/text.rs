use termrec::text::{chars_of, decimal_number, digit_text, next_word, parse_u32_chars, percent_of, push_decimal, trim_str};

fn v(s: &str) -> Vec<char> {
    s.chars().collect()
}

#[test]
fn trimming() {
    assert_eq!(trim_str("  a b \u{2003}"), "a b");
    assert_eq!(trim_str("\u{85}x\u{A0}"), "x");
    assert_eq!(trim_str(" \t\r\n"), "");
    assert_eq!(trim_str("x"), "x");
    assert_eq!(chars_of("héllo"), v("héllo"));
}

#[test]
fn numbers() {
    assert_eq!(parse_u32_chars(&v("4294967295")), Some(u32::MAX));
    assert_eq!(parse_u32_chars(&v("4294967296")), None);
    assert_eq!(parse_u32_chars(&v("+7")), Some(7));
    assert_eq!(parse_u32_chars(&v("+")), None);
    assert_eq!(parse_u32_chars(&v("")), None);
    assert_eq!(parse_u32_chars(&v("00012")), Some(12));
    assert_eq!(parse_u32_chars(&v("١٢")), None);
    assert_eq!(percent_of(&v("100")), Some(100));
    assert_eq!(percent_of(&v("0100")), Some(100));
    assert_eq!(percent_of(&v("101")), None);
    assert_eq!(percent_of(&v("99999999999999999999999")), None);
    assert!(decimal_number(&v("1.")) && decimal_number(&v(".5")) && decimal_number(&v("12")));
    assert!(!decimal_number(&v(".")) && !decimal_number(&v("1.2.3")) && !decimal_number(&v("")));
    assert!(digit_text(&v("0042")) && !digit_text(&v("4x")) && !digit_text(&v("")));
    let mut s = String::from("n=");
    push_decimal(&mut s, 1234567890);
    assert_eq!(s, "n=1234567890");
}

#[test]
fn words() {
    let s = v("  ab  cd ");
    let (w, end) = next_word(&s, 0).unwrap();
    assert_eq!(w, "ab");
    let (w2, end2) = next_word(&s, end).unwrap();
    assert_eq!(w2, "cd");
    assert!(next_word(&s, end2).is_none());
}
