use chathub::commands::parse_count;
use chathub::digits::push_decimal;

#[test]
fn push_decimal_renders_canonically() {
    let mut s = String::new();
    push_decimal(&mut s, 0);
    assert_eq!(s, "0");
    let mut s = String::new();
    push_decimal(&mut s, 1234567890);
    assert_eq!(s, "1234567890");
    let mut s = String::from("id=");
    push_decimal(&mut s, 42);
    assert_eq!(s, "id=42");
    let mut s = String::new();
    push_decimal(&mut s, u64::MAX);
    assert_eq!(s, "18446744073709551615");
}

#[test]
fn parse_count_reads_digit_runs() {
    assert_eq!(parse_count(&"0".to_string()), Some(0));
    assert_eq!(parse_count(&"007".to_string()), Some(7));
    assert_eq!(parse_count(&"345".to_string()), Some(345));
    assert_eq!(
        parse_count(&"18446744073709551615".to_string()),
        Some(usize::MAX)
    );
}

#[test]
fn parse_count_rejects_everything_else() {
    assert_eq!(parse_count(&"".to_string()), None);
    assert_eq!(parse_count(&"-1".to_string()), None);
    assert_eq!(parse_count(&"+3".to_string()), None);
    assert_eq!(parse_count(&"12a".to_string()), None);
    assert_eq!(parse_count(&"many".to_string()), None);
    assert_eq!(parse_count(&"18446744073709551616".to_string()), None);
}
