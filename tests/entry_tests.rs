use rustotp::entry::{split_line, EntryError, TOTPEntry};

const SECRET: &str = "JBSWY3DPEHPK3PXPJBSWY3DPEHPK3PXP";
const RFC_SECRET: &str = "GEZDGNBVGY3TQOJQGEZDGNBVGY3TQOJQ";

#[test]
fn split_line_accepts_one_separator() {
    assert_eq!(split_line("a=b"), Ok(("a".to_string(), "b".to_string())));
    assert_eq!(split_line("=x"), Ok(("".to_string(), "x".to_string())));
}

#[test]
fn split_line_rejects_other_counts() {
    assert_eq!(split_line("aa"), Err(EntryError::Format));
    assert_eq!(split_line("a=b=c"), Err(EntryError::Format));
    assert_eq!(split_line(""), Err(EntryError::Format));
}

#[test]
fn parse_rejects_missing_separator() {
    assert!(matches!(TOTPEntry::parse("aa"), Err(EntryError::Format)));
}

#[test]
fn parse_rejects_two_separators() {
    assert!(matches!(TOTPEntry::parse("a=b=c"), Err(EntryError::Format)));
}

#[test]
fn parse_rejects_unusable_secret() {
    assert!(matches!(TOTPEntry::parse("a=b"), Err(EntryError::Oracle)));
    assert!(matches!(TOTPEntry::parse("a=not base32!"), Err(EntryError::Oracle)));
    // valid base32, but only ten bytes of key
    assert!(matches!(TOTPEntry::parse("a=JBSWY3DPEHPK3PXP"), Err(EntryError::Oracle)));
}

#[test]
fn parse_accepts_valid_line() {
    let line = format!("github={}", SECRET);
    let e = TOTPEntry::parse(&line).ok().unwrap();
    assert_eq!(e.name, "github");
    assert_eq!(e.name_str(), "github");
    assert_eq!(e.secret_str(), SECRET);
}

#[test]
fn new_rejects_unusable_secret() {
    assert!(matches!(TOTPEntry::new("a", "b"), Err(EntryError::Oracle)));
    assert!(TOTPEntry::new("a", SECRET).is_ok());
}

#[test]
fn dump_then_parse_round_trip() {
    let e = TOTPEntry::new("mail", SECRET).ok().unwrap();
    let line = e.dump();
    assert_eq!(line, format!("mail={}", SECRET));
    let back = TOTPEntry::parse(&line).ok().unwrap();
    assert_eq!(back.name_str(), "mail");
    assert_eq!(back.secret_str(), SECRET);
    for t in [0u64, 59, 1_000_000, 1_700_000_000] {
        assert_eq!(back.code_at(t), e.code_at(t));
    }
}

#[test]
fn code_at_matches_reference_vectors() {
    let e = TOTPEntry::new("rfc", RFC_SECRET).ok().unwrap();
    assert_eq!(e.code_at(59), "287082");
    assert_eq!(e.code_at(1111111109), "081804");
    assert_eq!(e.code_at(1234567890), "005924");
    assert_eq!(e.code_at(2000000000), "279037");
}

#[test]
fn code_is_stable_within_a_window() {
    let e = TOTPEntry::new("rfc", RFC_SECRET).ok().unwrap();
    assert_eq!(e.code_at(30), e.code_at(59));
    assert_ne!(e.code_at(59), e.code_at(60));
}

#[test]
fn remaining_counts_down_and_resets() {
    assert_eq!(TOTPEntry::remaining_at(60), 30);
    assert_eq!(TOTPEntry::remaining_at(61), 29);
    assert_eq!(TOTPEntry::remaining_at(89), 1);
    assert_eq!(TOTPEntry::remaining_at(90), 30);
    assert!(TOTPEntry::remaining_at(75) >= TOTPEntry::remaining_at(80));
}

#[test]
fn current_values_are_in_range() {
    let e = TOTPEntry::new("now", SECRET).ok().unwrap();
    let code = e.current_code().unwrap();
    assert_eq!(code.len(), 6);
    assert!(code.chars().all(|c| c.is_ascii_digit()));
    let r = e.remaining_seconds().unwrap();
    assert!((1..=30).contains(&r));
}
