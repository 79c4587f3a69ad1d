//! Validation helpers for typed tools.
//!
//! Each check returns `Ok(())` or an `Error::Validation` whose text is a JSON
//! object with elicitation hints: members `code`, `elicit` (true), `expected`,
//! `field` and `message`, in that order.
use vstd::prelude::*;
use crate::error::Error;
use crate::server::error_codes::{join, push_joined, str_views};
use crate::text::{
    chars_of, contains_char, contains_char_from, contains_seq, contains_str, extend_chars, has_prefix, int_text,
    is_ws, json_quote, push_int_text, push_json_quoted, push_nat_digits, nat_text, regex_compile_error,
    regex_finds, regex_is_match, starts_with, string_of, trim, trim_bounds,
};
use vstd::utf8::encode_utf8;

verus! {

/// Validation error with elicitation support
#[derive(Debug, Clone)]
pub struct ValidationError {
    /// Human-readable error message
    pub message: String,
    /// Machine-readable error code for elicitation
    pub code: Option<String>,
    /// Field that failed validation
    pub field: Option<String>,
    /// Expected format or value
    pub expected: Option<String>,
}

/// The message an elicitation error carries.
pub open spec fn elicit_message(field: Seq<char>) -> Seq<char> {
    "Validation failed for field '"@ + field + "'"@
}

/// The JSON text of an elicitation error.
pub open spec fn elicit_text(code: Seq<char>, field: Seq<char>, expected: Seq<char>) -> Seq<char> {
    "{\"code\":"@ + json_quote(code) + ",\"elicit\":true,\"expected\":"@ + json_quote(expected)
        + ",\"field\":"@ + json_quote(field) + ",\"message\":"@ + json_quote(
        elicit_message(field),
    ) + "}"@
}

/// The error is the elicitation error with these hints.
pub open spec fn is_elicit(e: Error, code: Seq<char>, field: Seq<char>, expected: Seq<char>) -> bool {
    e matches Error::Validation(m) && m@ == elicit_text(code, field, expected)
}

impl ValidationError {
    /// Create a validation error with elicitation hints
    pub fn elicit(code: &str, field: &str, expected: &str) -> (e: Error)
        ensures
            is_elicit(e, code@, field@, expected@),
    {
        let mut msg: Vec<char> = Vec::new();
        extend_chars(&mut msg, "Validation failed for field '");
        extend_chars(&mut msg, field);
        extend_chars(&mut msg, "'");
        let message = string_of(msg.as_slice());
        let mut v: Vec<char> = Vec::new();
        extend_chars(&mut v, "{\"code\":");
        push_json_quoted(&mut v, code);
        extend_chars(&mut v, ",\"elicit\":true,\"expected\":");
        push_json_quoted(&mut v, expected);
        extend_chars(&mut v, ",\"field\":");
        push_json_quoted(&mut v, field);
        extend_chars(&mut v, ",\"message\":");
        push_json_quoted(&mut v, message.as_str());
        extend_chars(&mut v, "}");
        Error::Validation(string_of(v.as_slice()))
    }

    /// Create a simple validation error
    pub fn simple(message: &str) -> (e: Error)
        ensures
            e matches Error::Validation(m) && m@ == message@,
    {
        Error::Validation(message.to_owned())
    }
}

/// The expected text of a range check.
pub open spec fn range_expected(min: i64, max: i64) -> Seq<char> {
    "Value must be between "@ + int_text(min as int) + " and "@ + int_text(max as int)
}

/// What `validate_range` returns.
pub open spec fn range_outcome(field: Seq<char>, value: i64, min: i64, max: i64, r: Result<(), Error>) -> bool {
    &&& r is Ok <==> min <= value <= max
    &&& r matches Err(e) ==> is_elicit(e, "out_of_range"@, field, range_expected(min, max))
}

/// Validate that a value is within a range
pub fn validate_range(field: &str, value: &i64, min: &i64, max: &i64) -> (r: Result<(), Error>)
    ensures
        range_outcome(field@, *value, *min, *max, r),
{
    if *value < *min || *value > *max {
        let mut x: Vec<char> = Vec::new();
        extend_chars(&mut x, "Value must be between ");
        push_int_text(&mut x, *min);
        extend_chars(&mut x, " and ");
        push_int_text(&mut x, *max);
        let expected = string_of(x.as_slice());
        return Err(ValidationError::elicit("out_of_range", field, expected.as_str()));
    }
    Ok(())
}

/// The expected text of a choice check.
pub open spec fn one_of_expected(allowed: Seq<&str>) -> Seq<char> {
    "Must be one of: "@ + join(str_views(allowed), ", "@)
}

/// What `validate_one_of` returns.
pub open spec fn one_of_outcome(field: Seq<char>, value: Seq<char>, allowed: Seq<&str>, r: Result<(), Error>) -> bool {
    &&& r is Ok <==> str_views(allowed).contains(value)
    &&& r matches Err(e) ==> is_elicit(e, "invalid_choice"@, field, one_of_expected(allowed))
}

/// Validate that a value is one of an allowed set
pub fn validate_one_of(field: &str, value: &str, allowed: &[&str]) -> (r: Result<(), Error>)
    ensures
        one_of_outcome(field@, value@, allowed@, r),
{
    let mut i: usize = 0;
    while i < allowed.len()
        invariant
            i <= allowed@.len(),
            forall|j: int| 0 <= j < i ==> allowed@[j]@ != value@,
        decreases allowed@.len() - i,
    {
        if str_eq(allowed[i], value) {
            proof {
                assert(str_views(allowed@)[i as int] == value@);
            }
            return Ok(());
        }
        i = i + 1;
    }
    proof {
        assert forall|j: int| 0 <= j < str_views(allowed@).len() implies str_views(allowed@)[j]
            != value@ by {
            assert(str_views(allowed@)[j] == allowed@[j]@);
        }
    }
    let mut x: Vec<char> = Vec::new();
    extend_chars(&mut x, "Must be one of: ");
    push_joined(&mut x, allowed, ", ");
    let expected = string_of(x.as_slice());
    Err(ValidationError::elicit("invalid_choice", field, expected.as_str()))
}

/// Whether two string slices are equal.
pub fn str_eq(a: &str, b: &str) -> (r: bool)
    ensures
        r == (a@ == b@),
{
    let av = chars_of(a);
    let bv = chars_of(b);
    if av.len() != bv.len() {
        return false;
    }
    let mut i: usize = 0;
    while i < av.len()
        invariant
            av@ == a@,
            bv@ == b@,
            av@.len() == bv@.len(),
            i <= av@.len(),
            forall|j: int| 0 <= j < i ==> av@[j] == bv@[j],
        decreases av@.len() - i,
    {
        if av[i] != bv[i] {
            return false;
        }
        i = i + 1;
    }
    assert(av@ == bv@);
    true
}

/// The message of a pattern that does not compile.
pub open spec fn bad_pattern_message(pattern: Seq<char>, error: Seq<char>) -> Seq<char> {
    "Invalid regex pattern '"@ + pattern + "': "@ + error
}

/// What `validate_regex` returns.
pub open spec fn regex_outcome(field: Seq<char>, value: Seq<char>, pattern: Seq<char>, r: Result<(), Error>) -> bool {
    &&& r is Ok <==> regex_compile_error(pattern) is None && regex_finds(pattern, value)
    &&& regex_compile_error(pattern) matches Some(err) ==> (r matches Err(Error::Internal(m))
        && m@ == bad_pattern_message(pattern, err))
    &&& regex_compile_error(pattern) is None && !regex_finds(pattern, value) ==> (r matches Err(e)
        && is_elicit(e, "pattern_mismatch"@, field, "Must match pattern: "@ + pattern))
}

/// Validate that a string matches a regex pattern
pub fn validate_regex(field: &str, value: &str, pattern: &str) -> (r: Result<(), Error>)
    ensures
        regex_outcome(field@, value@, pattern@, r),
{
    match regex_is_match(pattern, value) {
        Err(err) => {
            let mut m: Vec<char> = Vec::new();
            extend_chars(&mut m, "Invalid regex pattern '");
            extend_chars(&mut m, pattern);
            extend_chars(&mut m, "': ");
            extend_chars(&mut m, err.as_str());
            Err(Error::Internal(string_of(m.as_slice())))
        },
        Ok(found) => {
            if !found {
                let mut x: Vec<char> = Vec::new();
                extend_chars(&mut x, "Must match pattern: ");
                extend_chars(&mut x, pattern);
                let expected = string_of(x.as_slice());
                Err(ValidationError::elicit("pattern_mismatch", field, expected.as_str()))
            } else {
                Ok(())
            }
        },
    }
}

/// The length of a string in UTF-8 bytes (`str::len`).
pub open spec fn byte_len(s: Seq<char>) -> nat {
    encode_utf8(s).len()
}

/// What `validate_length` returns.
pub open spec fn length_outcome(field: Seq<char>, value: Seq<char>, min: Option<usize>, max: Option<usize>, r: Result<(), Error>) -> bool {
    &&& r is Ok <==> (min matches Some(lo) ==> byte_len(value) >= lo) && (max matches Some(hi)
        ==> byte_len(value) <= hi)
    &&& r matches Err(e) ==> match min {
        Some(lo) if byte_len(value) < lo => is_elicit(
            e,
            "too_short"@,
            field,
            "Minimum length is "@ + nat_text(lo as nat),
        ),
        _ => max matches Some(hi) && is_elicit(
            e,
            "too_long"@,
            field,
            "Maximum length is "@ + nat_text(hi as nat),
        ),
    }
}

/// Validate string length, counted in UTF-8 bytes
pub fn validate_length(field: &str, value: &str, min: Option<usize>, max: Option<usize>) -> (r:
    Result<(), Error>)
    requires
        byte_len(value@) <= usize::MAX,
    ensures
        length_outcome(field@, value@, min, max, r),
{
    let len = value.len();
    if let Some(min_len) = min {
        if len < min_len {
            let mut x: Vec<char> = Vec::new();
            extend_chars(&mut x, "Minimum length is ");
            push_nat_digits(&mut x, min_len as u64);
            let expected = string_of(x.as_slice());
            return Err(ValidationError::elicit("too_short", field, expected.as_str()));
        }
    }
    if let Some(max_len) = max {
        if len > max_len {
            let mut x: Vec<char> = Vec::new();
            extend_chars(&mut x, "Maximum length is ");
            push_nat_digits(&mut x, max_len as u64);
            let expected = string_of(x.as_slice());
            return Err(ValidationError::elicit("too_long", field, expected.as_str()));
        }
    }
    Ok(())
}

/// How often `c` occurs in `s`.
pub open spec fn count_char(s: Seq<char>, c: char) -> nat
    decreases s.len(),
{
    if s.len() == 0 {
        0
    } else {
        count_char(s.drop_last(), c) + if s.last() == c { 1nat } else { 0nat }
    }
}

/// The form an address must have: an `@` and a `.`, at least five bytes, and
/// exactly one `@` with something before and after it.
pub open spec fn email_ok(s: Seq<char>) -> bool {
    &&& s.contains('@')
    &&& s.contains('.')
    &&& byte_len(s) >= 5
    &&& count_char(s, '@') == 1
    &&& s[0] != '@'
    &&& s.last() != '@'
}

/// The expected text of an address check.
pub open spec fn email_expected() -> Seq<char> {
    "Valid email address (e.g., user@example.com)"@
}

/// What `validate_email` returns.
pub open spec fn email_outcome(field: Seq<char>, value: Seq<char>, r: Result<(), Error>) -> bool {
    &&& r is Ok <==> email_ok(value)
    &&& r matches Err(e) ==> is_elicit(e, "invalid_email"@, field, email_expected())
}

/// Validate email format
pub fn validate_email(field: &str, value: &str) -> (r: Result<(), Error>)
    requires
        byte_len(value@) <= usize::MAX,
    ensures
        email_outcome(field@, value@, r),
{
    let cs = chars_of(value);
    if !contains_char(cs.as_slice(), '@') || !contains_char(cs.as_slice(), '.') || value.len() < 5 {
        return Err(
            ValidationError::elicit(
                "invalid_email",
                field,
                "Valid email address (e.g., user@example.com)",
            ),
        );
    }
    let mut count: usize = 0;
    let mut i: usize = 0;
    while i < cs.len()
        invariant
            cs@ == value@,
            i <= cs@.len(),
            count == count_char(cs@.subrange(0, i as int), '@'),
            count <= i,
        decreases cs@.len() - i,
    {
        assert(cs@.subrange(0, (i + 1) as int).drop_last() == cs@.subrange(0, i as int));
        if cs[i] == '@' {
            count = count + 1;
        }
        i = i + 1;
    }
    assert(cs@.subrange(0, cs@.len() as int) == cs@);
    if count != 1 || cs[0] == '@' || cs[cs.len() - 1] == '@' {
        return Err(
            ValidationError::elicit(
                "invalid_email",
                field,
                "Valid email address (e.g., user@example.com)",
            ),
        );
    }
    Ok(())
}

/// Whether a URL can be checked: the check looks at the text from byte 8 on,
/// which must start at a character boundary.
pub open spec fn url_sliceable(s: Seq<char>) -> bool {
    !(has_prefix(s, "http://"@) || has_prefix(s, "https://"@)) || byte_len(s) < 10 || (s.len()
        > 7 && (s[7] as u32) < 0x80)
}

/// The form a URL must have: an `http://` or `https://` scheme, at least ten
/// bytes, and a `.` after the first eight characters.
pub open spec fn url_ok(s: Seq<char>) -> bool {
    &&& has_prefix(s, "http://"@) || has_prefix(s, "https://"@)
    &&& byte_len(s) >= 10
    &&& s.subrange(8, s.len() as int).contains('.')
}

/// A URL with a scheme and ten bytes or more has at least eight characters.
pub proof fn lemma_url_chars(s: Seq<char>)
    requires
        has_prefix(s, "http://"@) || has_prefix(s, "https://"@),
        byte_len(s) >= 10,
    ensures
        s.len() >= 8,
{
    reveal_strlit("http://");
    reveal_strlit("https://");
    if s.len() < 8 {
        assert(s.len() >= 7);
        assert(s == s.subrange(0, 7));
        assert(s == "http://"@);
        vstd::utf8::is_ascii_chars_encode_utf8(s);
    }
}

/// What `validate_url` returns.
pub open spec fn url_outcome(field: Seq<char>, value: Seq<char>, r: Result<(), Error>) -> bool {
    &&& r is Ok <==> url_ok(value)
    &&& r matches Err(e) ==> if has_prefix(value, "http://"@) || has_prefix(value, "https://"@) {
        is_elicit(e, "invalid_url"@, field, "Valid URL (e.g., https://example.com)"@)
    } else {
        is_elicit(e, "invalid_url"@, field, "Valid URL starting with http:// or https://"@)
    }
}

/// Validate URL format
pub fn validate_url(field: &str, value: &str) -> (r: Result<(), Error>)
    requires
        url_sliceable(value@),
        byte_len(value@) <= usize::MAX,
    ensures
        url_outcome(field@, value@, r),
{
    let cs = chars_of(value);
    if !starts_with(cs.as_slice(), "http://") && !starts_with(cs.as_slice(), "https://") {
        return Err(
            ValidationError::elicit(
                "invalid_url",
                field,
                "Valid URL starting with http:// or https://",
            ),
        );
    }
    if value.len() < 10 {
        return Err(
            ValidationError::elicit("invalid_url", field, "Valid URL (e.g., https://example.com)"),
        );
    }
    proof {
        lemma_url_chars(value@);
    }
    if !contains_char_from(cs.as_slice(), 8, '.') {
        return Err(
            ValidationError::elicit("invalid_url", field, "Valid URL (e.g., https://example.com)"),
        );
    }
    Ok(())
}

/// The view of an optional string slice.
pub open spec fn opt_str_view(o: Option<&str>) -> Option<Seq<char>> {
    match o {
        Some(s) => Some(s@),
        None => None,
    }
}

/// What `validate_safe_path` returns.
pub open spec fn safe_path_outcome(field: Seq<char>, path: Seq<char>, allowed_prefix: Option<Seq<char>>, r: Result<(), Error>) -> bool {
    &&& r is Ok <==> !contains_seq(path, ".."@) && !path.contains('\0') && (allowed_prefix matches Some(
        p,
    ) ==> has_prefix(path, p))
    &&& r matches Err(e) ==> if contains_seq(path, ".."@) {
        is_elicit(e, "path_traversal"@, field, "Path must not contain '..'"@)
    } else if path.contains('\0') {
        is_elicit(e, "invalid_path"@, field, "Path must not contain null bytes"@)
    } else {
        allowed_prefix matches Some(p) && is_elicit(
            e,
            "path_not_allowed"@,
            field,
            "Path must start with '"@ + p + "'"@,
        )
    }
}

/// Validate that a path is safe (no traversal)
pub fn validate_safe_path(field: &str, path: &str, allowed_prefix: Option<&str>) -> (r: Result<
    (),
    Error,
>)
    ensures
        safe_path_outcome(field@, path@, opt_str_view(allowed_prefix), r),
{
    let cs = chars_of(path);
    if contains_str(cs.as_slice(), "..") {
        return Err(ValidationError::elicit("path_traversal", field, "Path must not contain '..'"));
    }
    if contains_char(cs.as_slice(), '\0') {
        return Err(
            ValidationError::elicit("invalid_path", field, "Path must not contain null bytes"),
        );
    }
    if let Some(prefix) = allowed_prefix {
        if !starts_with(cs.as_slice(), prefix) {
            let mut x: Vec<char> = Vec::new();
            extend_chars(&mut x, "Path must start with '");
            extend_chars(&mut x, prefix);
            extend_chars(&mut x, "'");
            let expected = string_of(x.as_slice());
            return Err(ValidationError::elicit("path_not_allowed", field, expected.as_str()));
        }
    }
    Ok(())
}

/// What `validate_required` returns.
pub open spec fn required_outcome(field: Seq<char>, value: Seq<char>, r: Result<(), Error>) -> bool {
    &&& r is Ok <==> trim(value).len() > 0
    &&& r matches Err(e) ==> is_elicit(e, "required_field"@, field, "This field is required"@)
}

/// Validate that a value is not empty or whitespace only
pub fn validate_required(field: &str, value: &str) -> (r: Result<(), Error>)
    ensures
        required_outcome(field@, value@, r),
{
    let cs = chars_of(value);
    let (a, b) = trim_bounds(cs.as_slice(), 0, cs.len());
    assert(cs@.subrange(0, cs@.len() as int) == cs@);
    if a == b {
        return Err(ValidationError::elicit("required_field", field, "This field is required"));
    }
    Ok(())
}

/// What `validate_array_size` returns.
pub open spec fn size_outcome(field: Seq<char>, len: nat, min: Option<usize>, max: Option<usize>, r: Result<(), Error>) -> bool {
    &&& r is Ok <==> (min matches Some(lo) ==> len >= lo) && (max matches Some(hi) ==> len <= hi)
    &&& r matches Err(e) ==> match min {
        Some(lo) if len < lo => is_elicit(
            e,
            "too_few_items"@,
            field,
            "Minimum "@ + nat_text(lo as nat) + " items required"@,
        ),
        _ => max matches Some(hi) && is_elicit(
            e,
            "too_many_items"@,
            field,
            "Maximum "@ + nat_text(hi as nat) + " items allowed"@,
        ),
    }
}

/// Validate array/vec size
pub fn validate_array_size<T>(field: &str, items: &[T], min: Option<usize>, max: Option<usize>) -> (r:
    Result<(), Error>)
    ensures
        size_outcome(field@, items@.len(), min, max, r),
{
    let len = items.len();
    if let Some(min_len) = min {
        if len < min_len {
            let mut x: Vec<char> = Vec::new();
            extend_chars(&mut x, "Minimum ");
            push_nat_digits(&mut x, min_len as u64);
            extend_chars(&mut x, " items required");
            let expected = string_of(x.as_slice());
            return Err(ValidationError::elicit("too_few_items", field, expected.as_str()));
        }
    }
    if let Some(max_len) = max {
        if len > max_len {
            let mut x: Vec<char> = Vec::new();
            extend_chars(&mut x, "Maximum ");
            push_nat_digits(&mut x, max_len as u64);
            extend_chars(&mut x, " items allowed");
            let expected = string_of(x.as_slice());
            return Err(ValidationError::elicit("too_many_items", field, expected.as_str()));
        }
    }
    Ok(())
}

} // verus!

verus! {

/// Builder for complex validations: collects the errors of the checks it runs.
#[derive(Debug)]
pub struct Validator {
    errors: Vec<Error>,
}

impl View for Validator {
    type V = Seq<Error>;

    closed spec fn view(&self) -> Seq<Error> {
        self.errors@
    }
}

/// The errors after a check: its error appended when it failed.
pub open spec fn after_check(errors: Seq<Error>, r: Result<(), Error>) -> Seq<Error> {
    match r {
        Ok(_) => errors,
        Err(e) => errors.push(e),
    }
}

impl Validator {
    /// Create a new validator
    pub fn new() -> (v: Validator)
        ensures
            v@ == Seq::<Error>::empty(),
    {
        Validator { errors: Vec::new() }
    }

    /// Start validating a field
    pub fn field<'a, T>(&'a mut self, name: &'a str, value: T) -> (f: FieldValidator<'a, T>)
        ensures
            *f.validator == *old(self),
            *final(self) == *final(f.validator),
            f.name == name,
            f.value == value,
    {
        FieldValidator { validator: self, name, value }
    }

    /// Check if validation passed
    pub fn is_valid(&self) -> (b: bool)
        ensures
            b == (self@.len() == 0),
    {
        self.errors.len() == 0
    }

    /// Get validation result: the first error, if any
    pub fn validate(self) -> (r: Result<(), Error>)
        ensures
            self@.len() == 0 ==> r is Ok,
            self@.len() > 0 ==> r == Err::<(), Error>(self@[0]),
    {
        let mut errors = self.errors;
        if errors.len() == 0 {
            Ok(())
        } else {
            Err(errors.remove(0))
        }
    }

    /// Get all validation errors
    pub fn errors(&self) -> (r: &[Error])
        ensures
            r@ == self@,
    {
        self.errors.as_slice()
    }

    /// Add an error to the list.
    pub fn add_error(&mut self, e: Error)
        ensures
            final(self)@ == old(self)@.push(e),
    {
        self.errors.push(e);
    }

    /// Records the outcome of a check.
    fn record(&mut self, r: Result<(), Error>)
        ensures
            final(self)@ == after_check(old(self)@, r),
    {
        if let Err(e) = r {
            self.errors.push(e);
        }
    }
}

/// Field validator for chaining validations
#[derive(Debug)]
pub struct FieldValidator<'a, T> {
    /// The validator that collects the errors
    pub validator: &'a mut Validator,
    /// The field's name
    pub name: &'a str,
    /// The field's value
    pub value: T,
}

impl<'a> FieldValidator<'a, i64> {
    /// Validate range
    pub fn range(self, min: &i64, max: &i64) -> (r: &'a mut Validator)
        ensures
            exists|res: Result<(), Error>|
                range_outcome(self.name@, self.value, *min, *max, res) && r@ == after_check(
                    old(self.validator)@,
                    res,
                ),
            *final(self.validator) == *final(r),
    {
        let res = validate_range(self.name, &self.value, min, max);
        self.validator.record(res);
        self.validator
    }
}

impl<'a> FieldValidator<'a, &str> {
    /// Validate required
    pub fn required(self) -> (r: &'a mut Validator)
        ensures
            exists|res: Result<(), Error>|
                required_outcome(self.name@, self.value@, res) && r@ == after_check(
                    old(self.validator)@,
                    res,
                ),
            *final(self.validator) == *final(r),
    {
        let res = validate_required(self.name, self.value);
        self.validator.record(res);
        self.validator
    }

    /// Validate email
    pub fn email(self) -> (r: &'a mut Validator)
        requires
            byte_len(self.value@) <= usize::MAX,
        ensures
            exists|res: Result<(), Error>|
                email_outcome(self.name@, self.value@, res) && r@ == after_check(
                    old(self.validator)@,
                    res,
                ),
            *final(self.validator) == *final(r),
    {
        let res = validate_email(self.name, self.value);
        self.validator.record(res);
        self.validator
    }

    /// Validate URL
    pub fn url(self) -> (r: &'a mut Validator)
        requires
            url_sliceable(self.value@),
            byte_len(self.value@) <= usize::MAX,
        ensures
            exists|res: Result<(), Error>|
                url_outcome(self.name@, self.value@, res) && r@ == after_check(
                    old(self.validator)@,
                    res,
                ),
            *final(self.validator) == *final(r),
    {
        let res = validate_url(self.name, self.value);
        self.validator.record(res);
        self.validator
    }

    /// Validate regex pattern
    pub fn regex(self, pattern: &str) -> (r: &'a mut Validator)
        ensures
            exists|res: Result<(), Error>|
                regex_outcome(self.name@, self.value@, pattern@, res) && r@ == after_check(
                    old(self.validator)@,
                    res,
                ),
            *final(self.validator) == *final(r),
    {
        let res = validate_regex(self.name, self.value, pattern);
        self.validator.record(res);
        self.validator
    }

    /// Validate length
    pub fn length(self, min: Option<usize>, max: Option<usize>) -> (r: &'a mut Validator)
        requires
            byte_len(self.value@) <= usize::MAX,
        ensures
            exists|res: Result<(), Error>|
                length_outcome(self.name@, self.value@, min, max, res) && r@ == after_check(
                    old(self.validator)@,
                    res,
                ),
            *final(self.validator) == *final(r),
    {
        let res = validate_length(self.name, self.value, min, max);
        self.validator.record(res);
        self.validator
    }

    /// Validate one of
    pub fn one_of(self, allowed: &[&str]) -> (r: &'a mut Validator)
        ensures
            exists|res: Result<(), Error>|
                one_of_outcome(self.name@, self.value@, allowed@, res) && r@ == after_check(
                    old(self.validator)@,
                    res,
                ),
            *final(self.validator) == *final(r),
    {
        let res = validate_one_of(self.name, self.value, allowed);
        self.validator.record(res);
        self.validator
    }

    /// Validate safe path
    pub fn safe_path(self, allowed_prefix: Option<&str>) -> (r: &'a mut Validator)
        ensures
            exists|res: Result<(), Error>|
                safe_path_outcome(self.name@, self.value@, opt_str_view(allowed_prefix), res)
                    && r@ == after_check(old(self.validator)@, res),
            *final(self.validator) == *final(r),
    {
        let res = validate_safe_path(self.name, self.value, allowed_prefix);
        self.validator.record(res);
        self.validator
    }
}

impl<'a, 'b, T> FieldValidator<'a, &'b [T]> {
    /// Validate array size
    pub fn size(self, min: Option<usize>, max: Option<usize>) -> (r: &'a mut Validator)
        ensures
            exists|res: Result<(), Error>|
                size_outcome(self.name@, self.value@.len(), min, max, res) && r@ == after_check(
                    old(self.validator)@,
                    res,
                ),
            *final(self.validator) == *final(r),
    {
        let res = validate_array_size(self.name, self.value, min, max);
        self.validator.record(res);
        self.validator
    }
}


/// A text where `c` occurs nowhere counts no `c`, and the other way round.
proof fn lemma_count_zero(s: Seq<char>, c: char)
    requires
        count_char(s, c) == 0,
    ensures
        forall|j: int| 0 <= j < s.len() ==> s[j] != c,
    decreases s.len(),
{
    if s.len() > 0 {
        lemma_count_zero(s.drop_last(), c);
        assert forall|j: int| 0 <= j < s.len() implies s[j] != c by {
            if j < s.len() - 1 {
                assert(s[j] == s.drop_last()[j]);
            }
        }
    }
}

/// A text that counts one `c` holds it at exactly one place.
proof fn lemma_count_one(s: Seq<char>, c: char)
    requires
        count_char(s, c) == 1,
    ensures
        exists|k: int| 0 <= k < s.len() && s[k] == c && forall|j: int| 0 <= j < s.len() && j != k ==> s[j] != c,
    decreases s.len(),
{
    let init = s.drop_last();
    if s.last() == c {
        lemma_count_zero(init, c);
        let k = s.len() - 1;
        assert forall|j: int| 0 <= j < s.len() && j != k implies s[j] != c by {
            assert(s[j] == init[j]);
        }
        assert(s[k] == c);
    } else {
        lemma_count_one(init, c);
        let k = choose|k: int| 0 <= k < init.len() && init[k] == c && forall|j: int|
            0 <= j < init.len() && j != k ==> init[j] != c;
        assert(s[k] == init[k]);
        assert forall|j: int| 0 <= j < s.len() && j != k implies s[j] != c by {
            if j < s.len() - 1 {
                assert(s[j] == init[j]);
            }
        }
    }
}

/// An address is accepted only when it holds exactly one `@`, with text
/// before it and after it: a value with two `@`, or with `@` first or
/// last, is refused.
pub proof fn lemma_email_single_at(field: Seq<char>, value: Seq<char>, r: Result<(), Error>)
    requires
        email_outcome(field, value, r),
        r is Ok,
    ensures
        exists|k: int|
            0 < k < value.len() - 1 && value[k] == '@' && forall|j: int|
                0 <= j < value.len() && j != k ==> value[j] != '@',
{
    lemma_count_one(value, '@');
    let k = choose|k: int| 0 <= k < value.len() && value[k] == '@' && forall|j: int|
        0 <= j < value.len() && j != k ==> value[j] != '@';
    assert(value.last() == value[value.len() - 1]);
    assert(0 < k < value.len() - 1);
}

} // verus!
