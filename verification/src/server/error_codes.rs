//! Standard error codes for validation with client elicitation support.
//!
//! A consistent set of error codes that clients can use to automate UI
//! elicitation. A structured validation error is rendered as a JSON object
//! whose members appear in key order: `actual`, `code`, `context`, `elicit`,
//! `expected`, `field`, `message`, the optional ones only when present.
use vstd::prelude::*;
use crate::error::Error;
use crate::text::{
    extend_chars, i64_text, int_text, json_quote, push_int_text, push_json_quoted, string_of,
};

verus! {

/// Standard validation error codes for MCP tools
#[derive(Debug, Clone, Copy, PartialEq, Eq, Structural)]
pub enum ValidationErrorCode {
    /// Required field is missing
    MissingField,
    /// Field value has invalid format (e.g., email, URL)
    InvalidFormat,
    /// Numeric value is out of allowed range
    OutOfRange,
    /// Value is not in the allowed set
    NotAllowed,
    /// String is too short
    TooShort,
    /// String is too long
    TooLong,
    /// Array/collection has too few items
    TooFewItems,
    /// Array/collection has too many items
    TooManyItems,
    /// Pattern/regex mismatch
    PatternMismatch,
    /// Path traversal or security violation
    SecurityViolation,
    /// Type mismatch (expected different type)
    TypeMismatch,
    /// Custom validation failed
    CustomValidation,
}

/// The machine-readable string of a code.
pub open spec fn code_str(c: ValidationErrorCode) -> Seq<char> {
    match c {
        ValidationErrorCode::MissingField => "missing_field"@,
        ValidationErrorCode::InvalidFormat => "invalid_format"@,
        ValidationErrorCode::OutOfRange => "out_of_range"@,
        ValidationErrorCode::NotAllowed => "not_allowed"@,
        ValidationErrorCode::TooShort => "too_short"@,
        ValidationErrorCode::TooLong => "too_long"@,
        ValidationErrorCode::TooFewItems => "too_few_items"@,
        ValidationErrorCode::TooManyItems => "too_many_items"@,
        ValidationErrorCode::PatternMismatch => "pattern_mismatch"@,
        ValidationErrorCode::SecurityViolation => "security_violation"@,
        ValidationErrorCode::TypeMismatch => "type_mismatch"@,
        ValidationErrorCode::CustomValidation => "custom_validation"@,
    }
}

/// The human-readable description of a code.
pub open spec fn code_description(c: ValidationErrorCode) -> Seq<char> {
    match c {
        ValidationErrorCode::MissingField => "Required field is missing"@,
        ValidationErrorCode::InvalidFormat => "Field value has invalid format"@,
        ValidationErrorCode::OutOfRange => "Value is outside the allowed range"@,
        ValidationErrorCode::NotAllowed => "Value is not in the allowed set"@,
        ValidationErrorCode::TooShort => "Value is too short"@,
        ValidationErrorCode::TooLong => "Value is too long"@,
        ValidationErrorCode::TooFewItems => "Collection has too few items"@,
        ValidationErrorCode::TooManyItems => "Collection has too many items"@,
        ValidationErrorCode::PatternMismatch => "Value does not match the required pattern"@,
        ValidationErrorCode::SecurityViolation => "Security constraint violated"@,
        ValidationErrorCode::TypeMismatch => "Value has incorrect type"@,
        ValidationErrorCode::CustomValidation => "Custom validation failed"@,
    }
}

impl ValidationErrorCode {
    /// Get the string code for this error
    pub fn as_str(&self) -> (s: &'static str)
        ensures
            s@ == code_str(*self),
    {
        match self {
            ValidationErrorCode::MissingField => "missing_field",
            ValidationErrorCode::InvalidFormat => "invalid_format",
            ValidationErrorCode::OutOfRange => "out_of_range",
            ValidationErrorCode::NotAllowed => "not_allowed",
            ValidationErrorCode::TooShort => "too_short",
            ValidationErrorCode::TooLong => "too_long",
            ValidationErrorCode::TooFewItems => "too_few_items",
            ValidationErrorCode::TooManyItems => "too_many_items",
            ValidationErrorCode::PatternMismatch => "pattern_mismatch",
            ValidationErrorCode::SecurityViolation => "security_violation",
            ValidationErrorCode::TypeMismatch => "type_mismatch",
            ValidationErrorCode::CustomValidation => "custom_validation",
        }
    }

    /// Get a human-readable description
    pub fn description(&self) -> (s: &'static str)
        ensures
            s@ == code_description(*self),
    {
        match self {
            ValidationErrorCode::MissingField => "Required field is missing",
            ValidationErrorCode::InvalidFormat => "Field value has invalid format",
            ValidationErrorCode::OutOfRange => "Value is outside the allowed range",
            ValidationErrorCode::NotAllowed => "Value is not in the allowed set",
            ValidationErrorCode::TooShort => "Value is too short",
            ValidationErrorCode::TooLong => "Value is too long",
            ValidationErrorCode::TooFewItems => "Collection has too few items",
            ValidationErrorCode::TooManyItems => "Collection has too many items",
            ValidationErrorCode::PatternMismatch => "Value does not match the required pattern",
            ValidationErrorCode::SecurityViolation => "Security constraint violated",
            ValidationErrorCode::TypeMismatch => "Value has incorrect type",
            ValidationErrorCode::CustomValidation => "Custom validation failed",
        }
    }

    /// The string code, as the code is displayed.
    pub fn to_string(&self) -> (s: String)
        ensures
            s@ == code_str(*self),
    {
        self.as_str().to_owned()
    }
}

/// Structured validation error with elicitation support.
///
/// `actual` and `context` hold JSON values as JSON text, and are embedded in
/// the rendered object as they are.
#[derive(Debug, Clone)]
pub struct ValidationError {
    /// The error code
    pub code: ValidationErrorCode,
    /// The field that failed validation
    pub field: String,
    /// Human-readable error message
    pub message: String,
    /// Expected format/value description
    pub expected: Option<String>,
    /// The actual value that failed (for debugging), as JSON text
    pub actual: Option<String>,
    /// Additional context for the error, as JSON text
    pub context: Option<String>,
}

/// The default message of a new validation error.
pub open spec fn default_message(code: ValidationErrorCode, field: Seq<char>) -> Seq<char> {
    code_description(code) + " for field '"@ + field + "'"@
}

/// The view of an optional string.
pub open spec fn opt_view(o: Option<String>) -> Option<Seq<char>> {
    match o {
        Some(s) => Some(s@),
        None => None,
    }
}

/// The JSON object text of a validation error given by its parts.
pub open spec fn validation_text(
    code: ValidationErrorCode,
    field: Seq<char>,
    message: Seq<char>,
    expected: Option<Seq<char>>,
    actual: Option<Seq<char>>,
    context: Option<Seq<char>>,
) -> Seq<char> {
    "{"@ + (match actual {
        Some(a) => "\"actual\":"@ + a + ","@,
        None => Seq::<char>::empty(),
    }) + "\"code\":"@ + json_quote(code_str(code)) + (match context {
        Some(c) => ",\"context\":"@ + c,
        None => Seq::<char>::empty(),
    }) + ",\"elicit\":true"@ + (match expected {
        Some(x) => ",\"expected\":"@ + json_quote(x),
        None => Seq::<char>::empty(),
    }) + ",\"field\":"@ + json_quote(field) + ",\"message\":"@ + json_quote(message) + "}"@
}

/// The JSON object text of a validation error.
pub open spec fn validation_json(e: ValidationError) -> Seq<char> {
    validation_text(e.code, e.field@, e.message@, opt_view(e.expected), opt_view(e.actual), opt_view(e.context))
}

/// The error is `Error::Validation` carrying the given JSON text.
pub open spec fn is_validation_text(e: Error, text: Seq<char>) -> bool {
    e matches Error::Validation(m) && m@ == text
}

/// The error is `Error::Validation` carrying the JSON text of `v`.
pub open spec fn is_validation_error_for(e: Error, v: ValidationError) -> bool {
    is_validation_text(e, validation_json(v))
}

impl ValidationError {
    /// Create a new validation error
    pub fn new(code: ValidationErrorCode, field: &str) -> (e: ValidationError)
        ensures
            e.code == code,
            e.field@ == field@,
            e.message@ == default_message(code, field@),
            e.expected is None,
            e.actual is None,
            e.context is None,
    {
        let mut m: Vec<char> = Vec::new();
        extend_chars(&mut m, code.description());
        extend_chars(&mut m, " for field '");
        extend_chars(&mut m, field);
        extend_chars(&mut m, "'");
        ValidationError {
            code,
            field: field.to_owned(),
            message: string_of(m.as_slice()),
            expected: None,
            actual: None,
            context: None,
        }
    }

    /// Set the expected value/format description
    pub fn expected(self, expected: &str) -> (e: ValidationError)
        ensures
            e == (ValidationError { expected: e.expected, ..self }),
            e.expected matches Some(x) && x@ == expected@,
    {
        ValidationError { expected: Some(expected.to_owned()), ..self }
    }

    /// Set the actual value that failed validation, given as JSON text
    pub fn actual(self, actual_json: &str) -> (e: ValidationError)
        ensures
            e == (ValidationError { actual: e.actual, ..self }),
            e.actual matches Some(x) && x@ == actual_json@,
    {
        ValidationError { actual: Some(actual_json.to_owned()), ..self }
    }

    /// Set additional context, given as JSON text
    pub fn context(self, context_json: &str) -> (e: ValidationError)
        ensures
            e == (ValidationError { context: e.context, ..self }),
            e.context matches Some(x) && x@ == context_json@,
    {
        ValidationError { context: Some(context_json.to_owned()), ..self }
    }

    /// Set a custom message
    pub fn message(self, message: &str) -> (e: ValidationError)
        ensures
            e == (ValidationError { message: e.message, ..self }),
            e.message@ == message@,
    {
        ValidationError { message: message.to_owned(), ..self }
    }

    /// Convert to a JSON object for elicitation, as JSON text
    pub fn to_json(&self) -> (s: String)
        ensures
            s@ == validation_json(*self),
    {
        let mut v: Vec<char> = Vec::new();
        extend_chars(&mut v, "{");
        match &self.actual {
            Some(a) => {
                extend_chars(&mut v, "\"actual\":");
                extend_chars(&mut v, a.as_str());
                extend_chars(&mut v, ",");
            },
            None => {},
        }
        extend_chars(&mut v, "\"code\":");
        push_json_quoted(&mut v, self.code.as_str());
        match &self.context {
            Some(c) => {
                extend_chars(&mut v, ",\"context\":");
                extend_chars(&mut v, c.as_str());
            },
            None => {},
        }
        extend_chars(&mut v, ",\"elicit\":true");
        match &self.expected {
            Some(x) => {
                extend_chars(&mut v, ",\"expected\":");
                push_json_quoted(&mut v, x.as_str());
            },
            None => {},
        }
        extend_chars(&mut v, ",\"field\":");
        push_json_quoted(&mut v, self.field.as_str());
        extend_chars(&mut v, ",\"message\":");
        push_json_quoted(&mut v, self.message.as_str());
        extend_chars(&mut v, "}");
        string_of(v.as_slice())
    }

    /// Convert to an MCP Error
    pub fn to_error(&self) -> (e: Error)
        ensures
            is_validation_error_for(e, *self),
    {
        Error::Validation(self.to_json())
    }
}

/// Conversion of a failed result into a validation error.
pub trait IntoValidationError: Sized {
    /// The value holds a failure.
    spec fn is_failure(&self) -> bool;

    /// Convert to a validation error
    fn into_validation_error(self, code: ValidationErrorCode, field: &str) -> (e: Error)
        requires
            self.is_failure(),
    ;
}

/// A failed result whose error is given by its message.
impl<T> IntoValidationError for core::result::Result<T, String> {
    open spec fn is_failure(&self) -> bool {
        self is Err
    }

    /// The message is the code's description, a colon and the error's message.
    fn into_validation_error(self, code: ValidationErrorCode, field: &str) -> (e: Error)
        ensures
            self matches Err(msg) ==> is_validation_text(
                e,
                validation_text(
                    code,
                    field@,
                    code_description(code) + ": "@ + msg@,
                    None,
                    None,
                    None,
                ),
            ),
    {
        match self {
            Ok(_) => Error::Validation(String::new()),
            Err(msg) => {
                let mut m: Vec<char> = Vec::new();
                extend_chars(&mut m, code.description());
                extend_chars(&mut m, ": ");
                extend_chars(&mut m, msg.as_str());
                let text = string_of(m.as_slice());
                ValidationError::new(code, field).message(text.as_str()).to_error()
            },
        }
    }
}

/// Create a missing field error
pub fn missing_field(field: &str) -> (e: Error)
    ensures
        is_validation_text(
            e,
            validation_text(
                ValidationErrorCode::MissingField,
                field@,
                default_message(ValidationErrorCode::MissingField, field@),
                Some("This field is required"@),
                None,
                None,
            ),
        ),
{
    ValidationError::new(ValidationErrorCode::MissingField, field).expected(
        "This field is required",
    ).to_error()
}

/// Create an invalid format error
pub fn invalid_format(field: &str, expected: &str) -> (e: Error)
    ensures
        is_validation_text(
            e,
            validation_text(
                ValidationErrorCode::InvalidFormat,
                field@,
                default_message(ValidationErrorCode::InvalidFormat, field@),
                Some(expected@),
                None,
                None,
            ),
        ),
{
    ValidationError::new(ValidationErrorCode::InvalidFormat, field).expected(expected).to_error()
}

/// The expected text of an out-of-range error.
pub open spec fn range_expectation(min: Option<i64>, max: Option<i64>) -> Seq<char> {
    match (min, max) {
        (Some(lo), Some(hi)) => "Value between "@ + int_text(lo as int) + " and "@ + int_text(
            hi as int,
        ),
        (Some(lo), None) => "Value >= "@ + int_text(lo as int),
        (None, Some(hi)) => "Value <= "@ + int_text(hi as int),
        (None, None) => "Value within valid range"@,
    }
}

/// Create an out of range error; the actual value is given as a JSON string
/// holding its decimal text.
pub fn out_of_range(field: &str, value: i64, min: Option<i64>, max: Option<i64>) -> (e: Error)
    ensures
        is_validation_text(
            e,
            validation_text(
                ValidationErrorCode::OutOfRange,
                field@,
                default_message(ValidationErrorCode::OutOfRange, field@),
                Some(range_expectation(min, max)),
                Some(json_quote(int_text(value as int))),
                None,
            ),
        ),
{
    let mut x: Vec<char> = Vec::new();
    match (min, max) {
        (Some(lo), Some(hi)) => {
            extend_chars(&mut x, "Value between ");
            push_int_text(&mut x, lo);
            extend_chars(&mut x, " and ");
            push_int_text(&mut x, hi);
        },
        (Some(lo), None) => {
            extend_chars(&mut x, "Value >= ");
            push_int_text(&mut x, lo);
        },
        (None, Some(hi)) => {
            extend_chars(&mut x, "Value <= ");
            push_int_text(&mut x, hi);
        },
        (None, None) => {
            extend_chars(&mut x, "Value within valid range");
        },
    }
    let expected = string_of(x.as_slice());
    let value_text = i64_text(value);
    let mut a: Vec<char> = Vec::new();
    push_json_quoted(&mut a, value_text.as_str());
    let actual = string_of(a.as_slice());
    ValidationError::new(ValidationErrorCode::OutOfRange, field).expected(expected.as_str()).actual(
        actual.as_str(),
    ).to_error()
}

/// Values joined by a separator.
pub open spec fn join(items: Seq<Seq<char>>, sep: Seq<char>) -> Seq<char>
    decreases items.len(),
{
    if items.len() == 0 {
        Seq::<char>::empty()
    } else if items.len() == 1 {
        items[0]
    } else {
        join(items.drop_last(), sep) + sep + items.last()
    }
}

/// The views of string slices.
pub open spec fn str_views(items: Seq<&str>) -> Seq<Seq<char>> {
    items.map_values(|s: &str| s@)
}

/// Appends items joined by a separator.
pub fn push_joined(v: &mut Vec<char>, items: &[&str], sep: &str)
    ensures
        final(v)@ == old(v)@ + join(str_views(items@), sep@),
{
    let mut i: usize = 0;
    while i < items.len()
        invariant
            i <= items@.len(),
            v@ == old(v)@ + join(str_views(items@.subrange(0, i as int)), sep@),
        decreases items@.len() - i,
    {
        proof {
            let pre = items@.subrange(0, i as int);
            let post = items@.subrange(0, (i + 1) as int);
            assert(str_views(post).drop_last() == str_views(pre));
            assert(str_views(post).last() == items@[i as int]@);
        }
        if i > 0 {
            extend_chars(v, sep);
        }
        extend_chars(v, items[i]);
        i = i + 1;
    }
    assert(items@.subrange(0, items@.len() as int) == items@);
}

/// Create a not allowed error; the actual value is given as a JSON string.
pub fn not_allowed(field: &str, value: &str, allowed: &[&str]) -> (e: Error)
    ensures
        is_validation_text(
            e,
            validation_text(
                ValidationErrorCode::NotAllowed,
                field@,
                default_message(ValidationErrorCode::NotAllowed, field@),
                Some("One of: "@ + join(str_views(allowed@), ", "@)),
                Some(json_quote(value@)),
                None,
            ),
        ),
{
    let mut x: Vec<char> = Vec::new();
    extend_chars(&mut x, "One of: ");
    push_joined(&mut x, allowed, ", ");
    let expected = string_of(x.as_slice());
    let mut a: Vec<char> = Vec::new();
    push_json_quoted(&mut a, value);
    let actual = string_of(a.as_slice());
    ValidationError::new(ValidationErrorCode::NotAllowed, field).expected(expected.as_str()).actual(
        actual.as_str(),
    ).to_error()
}

/// Create a pattern mismatch error
pub fn pattern_mismatch(field: &str, pattern: &str) -> (e: Error)
    ensures
        is_validation_text(
            e,
            validation_text(
                ValidationErrorCode::PatternMismatch,
                field@,
                default_message(ValidationErrorCode::PatternMismatch, field@),
                Some("Match pattern: "@ + pattern@),
                None,
                None,
            ),
        ),
{
    let mut x: Vec<char> = Vec::new();
    extend_chars(&mut x, "Match pattern: ");
    extend_chars(&mut x, pattern);
    let expected = string_of(x.as_slice());
    ValidationError::new(ValidationErrorCode::PatternMismatch, field).expected(expected.as_str()).to_error()
}

/// Create a security violation error
pub fn security_violation(field: &str, reason: &str) -> (e: Error)
    ensures
        is_validation_text(
            e,
            validation_text(
                ValidationErrorCode::SecurityViolation,
                field@,
                "Security violation: "@ + reason@,
                None,
                None,
                None,
            ),
        ),
{
    let mut m: Vec<char> = Vec::new();
    extend_chars(&mut m, "Security violation: ");
    extend_chars(&mut m, reason);
    let message = string_of(m.as_slice());
    ValidationError::new(ValidationErrorCode::SecurityViolation, field).message(message.as_str()).to_error()
}

} // verus!
