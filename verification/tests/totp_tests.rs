use quackey::account::{normalize_secret, Account};
use quackey::error::AppError;
use quackey::totp::{format_totp, time_remaining_at, Algorithm};

const RFC_SHA1_SECRET: &str = "GEZDGNBVGY3TQOJQGEZDGNBVGY3TQOJQ";
const RFC_SHA256_SECRET: &str = "GEZDGNBVGY3TQOJQGEZDGNBVGY3TQOJQGEZDGNBVGY3TQOJQGEZA";
const RFC_SHA512_SECRET: &str = "GEZDGNBVGY3TQOJQGEZDGNBVGY3TQOJQGEZDGNBVGY3TQOJQGEZDGNBVGY3TQOJQGEZDGNBVGY3TQOJQGEZDGNBVGY3TQOJQGEZDGNA";

fn rfc_account(secret: &str, algorithm: Algorithm) -> Account {
    Account::new(
        "rfc".to_string(),
        secret.to_string(),
        8,
        30,
        algorithm,
        None,
    )
}

#[test]
fn rfc6238_sha1_vectors() {
    let a = rfc_account(RFC_SHA1_SECRET, Algorithm::Sha1);
    assert_eq!(a.generate_at(59).unwrap(), "94287082");
    assert_eq!(a.generate_at(1111111109).unwrap(), "07081804");
    assert_eq!(a.generate_at(1111111111).unwrap(), "14050471");
    assert_eq!(a.generate_at(1234567890).unwrap(), "89005924");
    assert_eq!(a.generate_at(2000000000).unwrap(), "69279037");
    assert_eq!(a.generate_at(20000000000).unwrap(), "65353130");
}

#[test]
fn rfc6238_sha256_vectors() {
    let a = rfc_account(RFC_SHA256_SECRET, Algorithm::Sha256);
    assert_eq!(a.generate_at(59).unwrap(), "46119246");
    assert_eq!(a.generate_at(1111111109).unwrap(), "68084774");
    assert_eq!(a.generate_at(20000000000).unwrap(), "77737706");
}

#[test]
fn rfc6238_sha512_vectors() {
    let a = rfc_account(RFC_SHA512_SECRET, Algorithm::Sha512);
    assert_eq!(a.generate_at(59).unwrap(), "90693936");
    assert_eq!(a.generate_at(1111111109).unwrap(), "25091201");
    assert_eq!(a.generate_at(20000000000).unwrap(), "47863826");
}

#[test]
fn code_has_exactly_the_requested_digits() {
    for &digits in &[6usize, 7, 8] {
        for &algorithm in &[Algorithm::Sha1, Algorithm::Sha256, Algorithm::Sha512] {
            let a = Account::new(
                "len".to_string(),
                RFC_SHA1_SECRET.to_string(),
                digits,
                30,
                algorithm,
                None,
            );
            let code = a.generate_at(1234567890).unwrap();
            assert_eq!(code.len(), digits);
            assert!(code.chars().all(|c| c.is_ascii_digit()));
        }
    }
}

#[test]
fn six_digit_code_is_suffix_of_eight_digit_code() {
    let a8 = rfc_account(RFC_SHA1_SECRET, Algorithm::Sha1);
    let a6 = Account::new(
        "rfc".to_string(),
        RFC_SHA1_SECRET.to_string(),
        6,
        30,
        Algorithm::Sha1,
        None,
    );
    // 94287082 truncated to six digits
    assert_eq!(a8.generate_at(59).unwrap(), "94287082");
    assert_eq!(a6.generate_at(59).unwrap(), "287082");
}

#[test]
fn same_window_gives_same_code() {
    let a = rfc_account(RFC_SHA1_SECRET, Algorithm::Sha1);
    // 30..59 share the window that starts at counter 1
    assert_eq!(a.generate_at(30).unwrap(), a.generate_at(59).unwrap());
    assert_eq!(a.generate_at(45).unwrap(), a.generate_at(45).unwrap());
    // the next window differs for these vectors
    assert_ne!(a.generate_at(59).unwrap(), a.generate_at(60).unwrap());
}

#[test]
fn invalid_secret_is_reported() {
    let a = Account::new(
        "bad".to_string(),
        "not base32 at all!".to_string(),
        6,
        30,
        Algorithm::Sha1,
        None,
    );
    assert!(!a.secret_is_valid());
    assert_eq!(a.generate_at(59), Err(AppError::InvalidSecret));
    assert_eq!(a.generate_totp(), Err(AppError::InvalidSecret));
}

#[test]
fn valid_secret_is_accepted() {
    let a = rfc_account(RFC_SHA1_SECRET, Algorithm::Sha1);
    assert!(a.secret_is_valid());
    let code = a.generate_totp().unwrap();
    assert_eq!(code.len(), 8);
    assert!(code.chars().all(|c| c.is_ascii_digit()));
}

#[test]
fn time_remaining_within_window() {
    // always in 1..=period, falling by the second, full period on a boundary
    assert_eq!(time_remaining_at(30, 0), 30);
    assert_eq!(time_remaining_at(30, 1), 29);
    assert_eq!(time_remaining_at(30, 15), 15);
    assert_eq!(time_remaining_at(30, 29), 1);
    assert_eq!(time_remaining_at(30, 30), 30);
    assert_eq!(time_remaining_at(30, 59), 1);
    assert_eq!(time_remaining_at(60, 60), 60);
    assert_eq!(time_remaining_at(90, 89), 1);
}

#[test]
fn account_time_remaining_in_range() {
    let a = rfc_account(RFC_SHA1_SECRET, Algorithm::Sha1);
    assert_eq!(a.time_remaining_at(59), 1);
    assert_eq!(a.time_remaining_at(60), 30);
    let r = a.time_remaining();
    assert!(1 <= r && r <= 30);
}

#[test]
fn accessors_return_the_parts() {
    let a = Account::new(
        "me@example.com".to_string(),
        RFC_SHA1_SECRET.to_string(),
        7,
        60,
        Algorithm::Sha256,
        Some("Example".to_string()),
    );
    assert_eq!(a.name(), "me@example.com");
    assert_eq!(a.secret(), RFC_SHA1_SECRET);
    assert_eq!(a.digits(), 7);
    assert_eq!(a.period(), 60);
    assert_eq!(a.algorithm(), Algorithm::Sha256);
    assert_eq!(a.issuer(), Some(&"Example".to_string()));
}

#[test]
fn with_identity_keeps_totp_parameters() {
    let a = Account::new(
        "old".to_string(),
        RFC_SHA1_SECRET.to_string(),
        8,
        30,
        Algorithm::Sha1,
        None,
    );
    let b = a.with_identity("new".to_string(), Some("issuer".to_string()));
    assert_eq!(b.name(), "new");
    assert_eq!(b.issuer(), Some(&"issuer".to_string()));
    assert_eq!(b.secret(), a.secret());
    assert_eq!(b.digits(), a.digits());
    assert_eq!(b.period(), a.period());
    assert_eq!(b.algorithm(), a.algorithm());
    assert_eq!(b.generate_at(59).unwrap(), a.generate_at(59).unwrap());
}

#[test]
fn normalize_secret_cleans_input() {
    assert_eq!(normalize_secret(" gezd gnbv \t"), "GEZDGNBV");
    assert_eq!(normalize_secret("abc"), "ABC");
    assert_eq!(normalize_secret("A2B3"), "A2B3");
    assert_eq!(normalize_secret(""), "");
    assert_eq!(normalize_secret(" \n\r\t "), "");
}

#[test]
fn format_totp_splits_long_codes() {
    assert_eq!(format_totp("123456"), "123 456");
    assert_eq!(format_totp("1234567"), "123 4567");
    assert_eq!(format_totp("12345678"), "1234 5678");
    assert_eq!(format_totp("123"), "123");
    assert_eq!(format_totp(""), "");
}

#[test]
fn error_categories_are_stable() {
    assert_eq!(AppError::InvalidSecret.category(), "invalid secret");
    assert_eq!(AppError::ClockError.category(), "clock error");
    assert_eq!(AppError::NotFound("x".to_string()).category(), "not found");
    assert_eq!(AppError::FileError("x".to_string()).category(), "file error");
    assert_eq!(
        AppError::PermissionError("x".to_string()).category(),
        "permission error"
    );
    assert_eq!(AppError::ParseError("x".to_string()).category(), "parse error");
    assert_eq!(AppError::InvalidInput("x".to_string()).category(), "invalid input");
}
