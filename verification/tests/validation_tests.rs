use pmcp::error::Error;
use pmcp::server::validation::{
    validate_array_size, validate_email, validate_length, validate_one_of, validate_range,
    validate_regex, validate_required, validate_safe_path, validate_url, Validator,
};

fn validation_json(e: &Error) -> serde_json::Value {
    match e {
        Error::Validation(text) => serde_json::from_str(text).unwrap(),
        _ => panic!("expected a validation error"),
    }
}

#[test]
fn test_validate_range() {
    assert!(validate_range("age", &25, &18, &65).is_ok());
    assert!(validate_range("age", &10, &18, &65).is_err());
    assert!(validate_range("age", &70, &18, &65).is_err());
}

#[test]
fn test_validate_one_of() {
    assert!(validate_one_of("currency", &"USD", &["USD", "EUR", "GBP"]).is_ok());
    assert!(validate_one_of("currency", &"JPY", &["USD", "EUR", "GBP"]).is_err());
}

#[test]
fn test_validate_email() {
    assert!(validate_email("email", "user@example.com").is_ok());
    assert!(validate_email("email", "invalid").is_err());
    assert!(validate_email("email", "@example.com").is_err());
    assert!(validate_email("email", "user@").is_err());
}

#[test]
fn test_validate_safe_path() {
    assert!(validate_safe_path("path", "/tmp/file.txt", Some("/tmp/")).is_ok());
    assert!(validate_safe_path("path", "/tmp/../etc/passwd", None).is_err());
    assert!(validate_safe_path("path", "/etc/passwd", Some("/tmp/")).is_err());
}

#[test]
fn test_validator_builder() {
    let mut v = Validator::new();
    v.field("age", 25).range(&18, &65);
    v.field("email", "user@example.com").email();
    let result = v.validate();

    assert!(result.is_ok());

    let mut v2 = Validator::new();
    v2.field("age", 10).range(&18, &65);
    let result = v2.validate();

    assert!(result.is_err());
}

#[test]
fn range_error_carries_elicitation_hints() {
    let e = validate_range("age", &10, &18, &65).unwrap_err();
    let j = validation_json(&e);
    assert_eq!(j["code"], "out_of_range");
    assert_eq!(j["field"], "age");
    assert_eq!(j["expected"], "Value must be between 18 and 65");
    assert_eq!(j["elicit"], true);
    assert_eq!(j["message"], "Validation failed for field 'age'");
}

#[test]
fn range_bounds_are_inclusive() {
    assert!(validate_range("n", &18, &18, &65).is_ok());
    assert!(validate_range("n", &65, &18, &65).is_ok());
    assert!(validate_range("n", &-5, &-10, &-1).is_ok());
}

#[test]
fn one_of_lists_allowed_values() {
    let e = validate_one_of("currency", "JPY", &["USD", "EUR"]).unwrap_err();
    let j = validation_json(&e);
    assert_eq!(j["code"], "invalid_choice");
    assert_eq!(j["expected"], "Must be one of: USD, EUR");
}

#[test]
fn length_counts_bytes() {
    assert!(validate_length("name", "abc", Some(3), Some(3)).is_ok());
    let short = validate_length("name", "ab", Some(3), None).unwrap_err();
    assert_eq!(validation_json(&short)["code"], "too_short");
    let long = validate_length("name", "abcd", None, Some(3)).unwrap_err();
    assert_eq!(validation_json(&long)["code"], "too_long");
    // "é" is two bytes long
    assert!(validate_length("name", "é", Some(2), Some(2)).is_ok());
}

#[test]
fn url_needs_scheme_and_host() {
    assert!(validate_url("u", "https://example.com").is_ok());
    assert!(validate_url("u", "http://a").is_err());
    assert!(validate_url("u", "ftp://example.com").is_err());
    assert!(validate_url("u", "https://localhost").is_err());
    let e = validate_url("u", "example.com").unwrap_err();
    assert_eq!(validation_json(&e)["code"], "invalid_url");
    assert_eq!(validation_json(&e)["expected"], "Valid URL starting with http:// or https://");
}

#[test]
fn regex_checks_and_reports_bad_patterns() {
    assert!(validate_regex("zip", "12345", "^[0-9]{5}$").is_ok());
    let e = validate_regex("zip", "12a45", "^[0-9]{5}$").unwrap_err();
    assert_eq!(validation_json(&e)["code"], "pattern_mismatch");
    let bad = validate_regex("zip", "x", "(").unwrap_err();
    assert!(matches!(bad, Error::Internal(_)));
}

#[test]
fn required_refuses_blank() {
    assert!(validate_required("name", "x").is_ok());
    assert!(validate_required("name", "   ").is_err());
    assert!(validate_required("name", "").is_err());
}

#[test]
fn array_size_limits() {
    assert!(validate_array_size("items", &[1, 2, 3], Some(1), Some(3)).is_ok());
    let few = validate_array_size::<i32>("items", &[], Some(1), None).unwrap_err();
    assert_eq!(validation_json(&few)["code"], "too_few_items");
    let many = validate_array_size("items", &[1, 2, 3, 4], None, Some(3)).unwrap_err();
    assert_eq!(validation_json(&many)["code"], "too_many_items");
}

#[test]
fn validator_keeps_errors_in_order() {
    let mut v = Validator::new();
    v.field("age", 10).range(&18, &65);
    v.field("email", "nope").email();
    v.field("name", "ok").required();
    assert!(!v.is_valid());
    assert_eq!(v.errors().len(), 2);
    let first = v.validate().unwrap_err();
    assert_eq!(validation_json(&first)["field"], "age");
}
