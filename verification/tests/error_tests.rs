use pmcp::error::{Error, ErrorCode, JSONRPCError, TransportError};

#[test]
fn test_error_creation() {
    let err = Error::internal("test error");
    assert!(matches!(err, Error::Internal(_)));

    let err = Error::protocol(ErrorCode::INVALID_REQUEST(), "bad request");
    assert!(matches!(err, Error::Protocol { .. }));
}

#[test]
fn test_error_codes() {
    assert_eq!(ErrorCode::PARSE_ERROR().as_i32(), -32700);
    assert_eq!(ErrorCode::RATE_LIMITED().as_i32(), -32005);
    assert_eq!(ErrorCode::CIRCUIT_BREAKER_OPEN().as_i32(), -32006);
}

#[test]
fn error_texts_follow_display() {
    assert_eq!(Error::internal("boom").to_string(), "Internal error: boom");
    assert_eq!(
        Error::protocol(ErrorCode::INVALID_PARAMS(), "bad").to_string(),
        "Protocol error: -32602 - bad"
    );
    assert_eq!(Error::timeout(1500).to_string(), "Request timed out after 1500ms");
    assert_eq!(Error::RateLimited.to_string(), "Rate limit exceeded");
    assert_eq!(Error::CircuitBreakerOpen.to_string(), "Circuit breaker is open");
    assert_eq!(
        Error::Transport(TransportError::ConnectionClosed).to_string(),
        "Transport error: Connection closed"
    );
}

#[test]
fn error_code_mapping() {
    assert_eq!(Error::RateLimited.error_code(), Some(ErrorCode::RATE_LIMITED()));
    assert_eq!(Error::timeout(1).error_code(), Some(ErrorCode::REQUEST_TIMEOUT()));
    assert_eq!(Error::internal("x").error_code(), None);
    assert!(Error::method_not_found("foo").is_error_code(ErrorCode::METHOD_NOT_FOUND()));
}

#[test]
fn error_from_jsonrpc_keeps_fields() {
    let e = Error::from_jsonrpc_error(JSONRPCError {
        code: -32000,
        message: "custom".to_string(),
        data: Some("{\"k\":1}".to_string()),
    });
    match e {
        Error::Protocol { code, message, data } => {
            assert_eq!(code.as_i32(), -32000);
            assert_eq!(message, "custom");
            assert_eq!(data, Some("{\"k\":1}".to_string()));
        },
        _ => panic!("expected a protocol error"),
    }
}

#[test]
fn method_not_found_message() {
    match Error::method_not_found("tools/x") {
        Error::Protocol { code, message, .. } => {
            assert_eq!(code.as_i32(), -32601);
            assert_eq!(message, "Method not found: tools/x");
        },
        _ => panic!("expected a protocol error"),
    }
}

#[test]
fn property_error_code_roundtrip() {
    for code in (-32999i32..-32100i32).step_by(37) {
        let error_code = ErrorCode::other(code);
        let as_i32 = error_code.as_i32();
        let from_i32 = ErrorCode::other(as_i32);
        assert_eq!(error_code.as_i32(), from_i32.as_i32());
        assert_eq!(as_i32, code);
    }
}

#[test]
fn property_error_consistency() {
    for message in ["a", "bad token", "x.y-z_1", "0123456789 abcdefghij"] {
        let parse_error = Error::parse(message);
        let code = parse_error.error_code().expect("parse errors carry a code");
        assert!((-32999..=-32000).contains(&code.as_i32()));
        assert_eq!(Error::validation(message).error_code(), None);
        assert_eq!(Error::internal(message).error_code(), None);
    }
}
