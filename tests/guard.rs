use file_guard::guard::{FileData, Outcome, BAN_THRESHOLD};
use file_guard::session::{parse_key, reject_zero_key, KeyParseError, Refusal};
use file_guard::transform::process_file_data;

fn s(text: &str) -> String {
    text.to_string()
}

#[test]
fn masking_flips_each_byte() {
    let data = vec![0x00u8, 0x0f, 0xff, 0x41];
    assert_eq!(process_file_data(&data, 0x0f), vec![0x0fu8, 0x00, 0xf0, 0x4e]);
}

#[test]
fn masking_twice_restores_bytes() {
    let data: Vec<u8> = (0u8..=255).collect();
    for key in 1u8..=255 {
        let once = process_file_data(&data, key);
        assert_ne!(once, data);
        assert_eq!(process_file_data(&once, key), data);
    }
}

#[test]
fn masking_empty_input() {
    assert_eq!(process_file_data(&Vec::new(), 9), Vec::<u8>::new());
}

#[test]
fn registered_key_is_accepted_and_others_are_not() {
    let mut guard = FileData::new();
    guard.add_encrypted_file(s("out.bin"), 7);
    assert_eq!(guard.check_key(&s("out.bin"), 7), Outcome::Accept);
    assert_eq!(guard.check_key(&s("out.bin"), 8), Outcome::WrongKey);
}

#[test]
fn first_registration_wins() {
    let mut guard = FileData::new();
    guard.add_encrypted_file(s("out.bin"), 7);
    guard.add_encrypted_file(s("out.bin"), 9);
    assert_eq!(guard.check_key(&s("out.bin"), 7), Outcome::Accept);
    assert_eq!(guard.check_key(&s("out.bin"), 9), Outcome::WrongKey);
}

#[test]
fn unknown_file_is_unregistered() {
    let guard = FileData::new();
    for key in 1u8..=255 {
        assert_eq!(guard.check_key(&s("a.txt"), key), Outcome::Unregistered);
    }
}

#[test]
fn three_failures_ban_the_address() {
    let mut guard = FileData::new();
    let file = s("out.bin");
    let addr = s("A");
    guard.add_encrypted_file(file.clone(), 7);
    assert_eq!(BAN_THRESHOLD, 3);
    for _ in 0..2 {
        assert_eq!(guard.admit_key(&file, &addr, 8), Err(Refusal::KeyMismatch));
        assert!(!guard.is_banned(&file, &addr));
    }
    assert_eq!(guard.admit_key(&file, &addr, 8), Err(Refusal::KeyMismatch));
    assert!(guard.is_banned(&file, &addr));
    assert!(!guard.is_banned(&file, &s("B")));
    assert!(!guard.is_banned(&s("other.bin"), &addr));
}

#[test]
fn ban_stays_after_more_failures() {
    let mut guard = FileData::new();
    let file = s("out.bin");
    let addr = s("A");
    guard.add_encrypted_file(file.clone(), 7);
    for _ in 0..5 {
        guard.change_ip_attempts(file.clone(), addr.clone());
    }
    assert!(guard.is_banned(&file, &addr));
    assert_eq!(guard.admit_key(&file, &addr, 7), Ok(false));
    assert!(guard.is_banned(&file, &addr));
}

#[test]
fn unregistered_file_is_never_banned() {
    let mut guard = FileData::new();
    let file = s("a.txt");
    let addr = s("A");
    for _ in 0..4 {
        guard.change_ip_attempts(file.clone(), addr.clone());
    }
    guard.add_banned_ip(file.clone(), addr.clone());
    assert!(!guard.is_banned(&file, &addr));
    guard.add_encrypted_file(file.clone(), 3);
    assert!(guard.is_banned(&file, &addr));
}

#[test]
fn explicit_ban_is_idempotent() {
    let mut guard = FileData::new();
    guard.add_encrypted_file(s("f"), 1);
    guard.add_banned_ip(s("f"), s("A"));
    guard.add_banned_ip(s("f"), s("A"));
    assert!(guard.is_banned(&s("f"), &s("A")));
}

#[test]
fn zero_key_is_refused_before_lookup() {
    let mut guard = FileData::new();
    let file = s("out.bin");
    let addr = s("A");
    guard.add_encrypted_file(file.clone(), 7);
    assert!(reject_zero_key(0));
    assert!(!reject_zero_key(1));
    for _ in 0..5 {
        assert_eq!(guard.admit_key(&file, &addr, 0), Err(Refusal::KeyIsZero));
    }
    assert!(!guard.is_banned(&file, &addr));
    assert_eq!(guard.admit_key(&s("new.txt"), &addr, 0), Err(Refusal::KeyIsZero));
}

#[test]
fn unregistered_input_registers_the_output_name() {
    let mut guard = FileData::new();
    let addr = s("A");
    let register = guard.admit_key(&s("a.txt"), &addr, 5);
    assert_eq!(register, Ok(true));
    if register == Ok(true) {
        guard.add_encrypted_file(s("b.bin"), 5);
    }
    assert_eq!(guard.check_key(&s("a.txt"), 5), Outcome::Unregistered);
    assert_eq!(guard.check_key(&s("b.bin"), 5), Outcome::Accept);
    assert_eq!(guard.admit_key(&s("b.bin"), &addr, 5), Ok(false));
}

#[test]
fn banned_address_is_stopped_before_key_comparison() {
    let mut guard = FileData::new();
    let file = s("out.bin");
    let addr = s("A");
    guard.add_encrypted_file(file.clone(), 7);
    for _ in 0..3 {
        assert_eq!(guard.admit_key(&file, &addr, 1), Err(Refusal::KeyMismatch));
    }
    assert!(guard.is_banned(&file, &addr));
}

#[test]
fn key_parse_errors() {
    assert_eq!(parse_key(""), Err(KeyParseError::Empty));
    assert_eq!(parse_key("999"), Err(KeyParseError::OutOfRange));
    assert_eq!(parse_key("xx"), Err(KeyParseError::InvalidDigit));
    assert_eq!(parse_key("+"), Err(KeyParseError::InvalidDigit));
    assert_eq!(parse_key("-"), Err(KeyParseError::InvalidDigit));
    assert_eq!(parse_key("-5"), Err(KeyParseError::InvalidDigit));
    assert_eq!(parse_key("12a"), Err(KeyParseError::InvalidDigit));
    assert_eq!(parse_key("256"), Err(KeyParseError::OutOfRange));
    assert_eq!(parse_key("2560x"), Err(KeyParseError::OutOfRange));
    assert_eq!(parse_key(" 5"), Err(KeyParseError::InvalidDigit));
}

#[test]
fn key_parse_values() {
    assert_eq!(parse_key("0"), Ok(0));
    assert_eq!(parse_key("7"), Ok(7));
    assert_eq!(parse_key("+7"), Ok(7));
    assert_eq!(parse_key("255"), Ok(255));
    assert_eq!(parse_key("000255"), Ok(255));
}

#[test]
fn key_parse_agrees_with_std() {
    let samples = [
        "", "0", "1", "99", "255", "256", "999", "xx", "+", "-", "+0", "-0", "12x", "99x", "999x",
        "1 2", "\u{663}", "0000000000000000255", "2555", "+256",
    ];
    for text in samples {
        let expected = match text.parse::<u8>() {
            Ok(k) => Ok(k),
            Err(e) => match e.kind() {
                std::num::IntErrorKind::Empty => Err(KeyParseError::Empty),
                std::num::IntErrorKind::InvalidDigit => Err(KeyParseError::InvalidDigit),
                std::num::IntErrorKind::PosOverflow => Err(KeyParseError::OutOfRange),
                _ => panic!("unexpected kind for {text:?}"),
            },
        };
        assert_eq!(parse_key(text), expected, "input {text:?}");
    }
}
