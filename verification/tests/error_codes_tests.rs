use pmcp::server::error_codes::{
    invalid_format, missing_field, not_allowed, out_of_range, pattern_mismatch,
    security_violation, ValidationError, ValidationErrorCode,
};

#[test]
fn test_validation_error_json() {
    let error = ValidationError::new(ValidationErrorCode::OutOfRange, "age")
        .expected("18-120")
        .actual("150")
        .message("Age must be between 18 and 120");

    let json: serde_json::Value = serde_json::from_str(&error.to_json()).unwrap();
    assert_eq!(json["code"], "out_of_range");
    assert_eq!(json["field"], "age");
    assert_eq!(json["expected"], "18-120");
    assert_eq!(json["actual"], 150);
    assert_eq!(json["elicit"], true);
}

#[test]
fn test_convenience_functions() {
    let error = missing_field("email");
    assert!(error.to_string().contains("missing_field"));

    let error = invalid_format("email", "user@example.com");
    assert!(error.to_string().contains("invalid_format"));

    let error = out_of_range("age", 200, Some(18), Some(120));
    assert!(error.to_string().contains("out_of_range"));
}

#[test]
fn json_members_in_key_order() {
    let e = ValidationError::new(ValidationErrorCode::MissingField, "email");
    assert_eq!(
        e.to_json(),
        "{\"code\":\"missing_field\",\"elicit\":true,\"field\":\"email\",\"message\":\"Required field is missing for field 'email'\"}"
    );
}

#[test]
fn json_escapes_strings() {
    let e = ValidationError::new(ValidationErrorCode::CustomValidation, "f")
        .message("say \"hi\"\n");
    let v: serde_json::Value = serde_json::from_str(&e.to_json()).unwrap();
    assert_eq!(v["message"], "say \"hi\"\n");
}

#[test]
fn code_strings_and_descriptions() {
    assert_eq!(ValidationErrorCode::TooFewItems.as_str(), "too_few_items");
    assert_eq!(ValidationErrorCode::SecurityViolation.description(), "Security constraint violated");
    assert_eq!(ValidationErrorCode::PatternMismatch.to_string(), "pattern_mismatch");
}

#[test]
fn out_of_range_expectations() {
    let text = |e: pmcp::error::Error| e.to_string();
    assert!(text(out_of_range("age", 200, Some(18), Some(120))).contains("Value between 18 and 120"));
    assert!(text(out_of_range("age", 1, Some(18), None)).contains("Value >= 18"));
    assert!(text(out_of_range("age", 200, None, Some(120))).contains("Value <= 120"));
    assert!(text(out_of_range("age", 200, Some(18), Some(120))).contains("\"actual\":\"200\""));
}

#[test]
fn other_helpers_name_their_codes() {
    assert!(not_allowed("c", "JPY", &["USD", "EUR"]).to_string().contains("One of: USD, EUR"));
    assert!(pattern_mismatch("zip", "^[0-9]+$").to_string().contains("pattern_mismatch"));
    assert!(security_violation("path", "traversal").to_string().contains("Security violation: traversal"));
}
