//! Error types for the MCP SDK.
//!
//! One error type covers the failure modes of the protocol. Its text, the
//! message a user reads, is `Error::to_string`, specified by `error_text`.
use vstd::prelude::*;
use crate::text::{extend_chars, int_text, nat_text, push_int_text, push_nat_digits, string_of, i64_text};

verus! {

/// JSON-RPC error code.
#[derive(Debug, Clone, Copy, PartialEq, Eq, Structural, Hash)]
pub struct ErrorCode(pub i32);

impl ErrorCode {
    /// Parse error (-32700)
    #[verifier::allow_in_spec]
    #[allow(non_snake_case)]
    pub fn PARSE_ERROR() -> ErrorCode
        returns
            ErrorCode(-32700i32),
    {
        ErrorCode(-32700i32)
    }
    /// Invalid request (-32600)
    #[verifier::allow_in_spec]
    #[allow(non_snake_case)]
    pub fn INVALID_REQUEST() -> ErrorCode
        returns
            ErrorCode(-32600i32),
    {
        ErrorCode(-32600i32)
    }
    /// Method not found (-32601)
    #[verifier::allow_in_spec]
    #[allow(non_snake_case)]
    pub fn METHOD_NOT_FOUND() -> ErrorCode
        returns
            ErrorCode(-32601i32),
    {
        ErrorCode(-32601i32)
    }
    /// Invalid params (-32602)
    #[verifier::allow_in_spec]
    #[allow(non_snake_case)]
    pub fn INVALID_PARAMS() -> ErrorCode
        returns
            ErrorCode(-32602i32),
    {
        ErrorCode(-32602i32)
    }
    /// Internal error (-32603)
    #[verifier::allow_in_spec]
    #[allow(non_snake_case)]
    pub fn INTERNAL_ERROR() -> ErrorCode
        returns
            ErrorCode(-32603i32),
    {
        ErrorCode(-32603i32)
    }
    /// Request timeout (-32001)
    #[verifier::allow_in_spec]
    #[allow(non_snake_case)]
    pub fn REQUEST_TIMEOUT() -> ErrorCode
        returns
            ErrorCode(-32001i32),
    {
        ErrorCode(-32001i32)
    }
    /// Unsupported capability (-32002)
    #[verifier::allow_in_spec]
    #[allow(non_snake_case)]
    pub fn UNSUPPORTED_CAPABILITY() -> ErrorCode
        returns
            ErrorCode(-32002i32),
    {
        ErrorCode(-32002i32)
    }
    /// Authentication required (-32003)
    #[verifier::allow_in_spec]
    #[allow(non_snake_case)]
    pub fn AUTHENTICATION_REQUIRED() -> ErrorCode
        returns
            ErrorCode(-32003i32),
    {
        ErrorCode(-32003i32)
    }
    /// Permission denied (-32004)
    #[verifier::allow_in_spec]
    #[allow(non_snake_case)]
    pub fn PERMISSION_DENIED() -> ErrorCode
        returns
            ErrorCode(-32004i32),
    {
        ErrorCode(-32004i32)
    }
    /// Rate limit exceeded (-32005)
    #[verifier::allow_in_spec]
    #[allow(non_snake_case)]
    pub fn RATE_LIMITED() -> ErrorCode
        returns
            ErrorCode(-32005i32),
    {
        ErrorCode(-32005i32)
    }
    /// Circuit breaker open (-32006)
    #[verifier::allow_in_spec]
    #[allow(non_snake_case)]
    pub fn CIRCUIT_BREAKER_OPEN() -> ErrorCode
        returns
            ErrorCode(-32006i32),
    {
        ErrorCode(-32006i32)
    }

    /// Create a custom error code.
    pub fn other(code: i32) -> (r: ErrorCode)
        ensures
            r.0 == code,
    {
        ErrorCode(code)
    }

    /// Convert error code to i32 value.
    pub fn as_i32(&self) -> (r: i32)
        ensures
            r == self.0,
    {
        self.0
    }

    /// The code in decimal, as it is displayed.
    pub fn to_string(&self) -> (s: String)
        ensures
            s@ == int_text(self.0 as int),
    {
        i64_text(self.0 as i64)
    }
}

/// A JSON-RPC error object as it arrives on the wire; `data` holds the
/// optional data member as JSON text.
#[derive(Debug, Clone, PartialEq, Eq)]
pub struct JSONRPCError {
    /// Error code
    pub code: i32,
    /// Error message
    pub message: String,
    /// Additional data, as JSON text
    pub data: Option<String>,
}

/// Transport-specific errors.
#[derive(Debug, Clone, PartialEq, Eq)]
pub enum TransportError {
    /// IO error
    Io(String),
    /// Connection closed
    ConnectionClosed,
    /// Invalid message format
    InvalidMessage(String),
    /// Serialization error
    Serialization(String),
    /// Deserialization error
    Deserialization(String),
    /// Request error
    Request(String),
    /// Send error
    Send(String),
    /// WebSocket error, by its text
    WebSocket(String),
    /// HTTP error
    Http(String),
}

/// Main error type for MCP operations.
#[derive(Debug, Clone, PartialEq, Eq)]
pub enum Error {
    /// JSON-RPC protocol errors
    Protocol {
        /// Error code as defined in JSON-RPC spec
        code: ErrorCode,
        /// Human-readable error message
        message: String,
        /// Optional additional error data, as JSON text
        data: Option<String>,
    },
    /// Transport-level errors
    Transport(TransportError),
    /// Serialization/deserialization errors, by the serializer's message
    Serialization(String),
    /// Validation errors
    Validation(String),
    /// Authentication errors
    Authentication(String),
    /// Timeout errors
    Timeout(u64),
    /// Capability errors
    UnsupportedCapability(String),
    /// Internal errors
    Internal(String),
    /// Resource not found
    NotFound(String),
    /// Invalid state
    InvalidState(String),
    /// Cancelled operation
    Cancelled,
    /// Rate limit exceeded
    RateLimited,
    /// Circuit breaker is open
    CircuitBreakerOpen,
    /// Other errors, by their message
    Other(String),
}

/// Result type alias for MCP operations.
pub type Result<T> = core::result::Result<T, Error>;

/// The text of a transport error.
pub open spec fn transport_text(t: TransportError) -> Seq<char> {
    match t {
        TransportError::Io(m) => "IO error: "@ + m@,
        TransportError::ConnectionClosed => "Connection closed"@,
        TransportError::InvalidMessage(m) => "Invalid message format: "@ + m@,
        TransportError::Serialization(m) => "Serialization error: "@ + m@,
        TransportError::Deserialization(m) => "Deserialization error: "@ + m@,
        TransportError::Request(m) => "Request error: "@ + m@,
        TransportError::Send(m) => "Send error: "@ + m@,
        TransportError::WebSocket(m) => "WebSocket error: "@ + m@,
        TransportError::Http(m) => "HTTP error: "@ + m@,
    }
}

/// The text of an error, as it is displayed.
pub open spec fn error_text(e: Error) -> Seq<char> {
    match e {
        Error::Protocol { code, message, .. } => "Protocol error: "@ + int_text(code.0 as int)
            + " - "@ + message@,
        Error::Transport(t) => "Transport error: "@ + transport_text(t),
        Error::Serialization(m) => "Serialization error: "@ + m@,
        Error::Validation(m) => "Validation error: "@ + m@,
        Error::Authentication(m) => "Authentication error: "@ + m@,
        Error::Timeout(ms) => "Request timed out after "@ + nat_text(ms as nat) + "ms"@,
        Error::UnsupportedCapability(m) => "Capability not supported: "@ + m@,
        Error::Internal(m) => "Internal error: "@ + m@,
        Error::NotFound(m) => "Resource not found: "@ + m@,
        Error::InvalidState(m) => "Invalid state: "@ + m@,
        Error::Cancelled => "Operation cancelled"@,
        Error::RateLimited => "Rate limit exceeded"@,
        Error::CircuitBreakerOpen => "Circuit breaker is open"@,
        Error::Other(m) => m@,
    }
}

/// The error code that an error carries, if any.
pub open spec fn spec_error_code(e: Error) -> Option<ErrorCode> {
    match e {
        Error::Protocol { code, .. } => Some(code),
        Error::Timeout(_) => Some(ErrorCode(-32001i32)),
        Error::Authentication(_) => Some(ErrorCode(-32003i32)),
        Error::RateLimited => Some(ErrorCode(-32005i32)),
        Error::CircuitBreakerOpen => Some(ErrorCode(-32006i32)),
        _ => None,
    }
}

impl TransportError {
    /// The message of this error.
    pub fn to_string(&self) -> (s: String)
        ensures
            s@ == transport_text(*self),
    {
        let mut v: Vec<char> = Vec::new();
        match self {
            TransportError::Io(m) => {
                extend_chars(&mut v, "IO error: ");
                extend_chars(&mut v, m.as_str());
            },
            TransportError::ConnectionClosed => {
                extend_chars(&mut v, "Connection closed");
            },
            TransportError::InvalidMessage(m) => {
                extend_chars(&mut v, "Invalid message format: ");
                extend_chars(&mut v, m.as_str());
            },
            TransportError::Serialization(m) => {
                extend_chars(&mut v, "Serialization error: ");
                extend_chars(&mut v, m.as_str());
            },
            TransportError::Deserialization(m) => {
                extend_chars(&mut v, "Deserialization error: ");
                extend_chars(&mut v, m.as_str());
            },
            TransportError::Request(m) => {
                extend_chars(&mut v, "Request error: ");
                extend_chars(&mut v, m.as_str());
            },
            TransportError::Send(m) => {
                extend_chars(&mut v, "Send error: ");
                extend_chars(&mut v, m.as_str());
            },
            TransportError::WebSocket(m) => {
                extend_chars(&mut v, "WebSocket error: ");
                extend_chars(&mut v, m.as_str());
            },
            TransportError::Http(m) => {
                extend_chars(&mut v, "HTTP error: ");
                extend_chars(&mut v, m.as_str());
            },
        }
        string_of(v.as_slice())
    }
}

impl Error {
    /// Create a new internal error.
    pub fn internal(message: &str) -> (e: Error)
        ensures
            e matches Error::Internal(m) && m@ == message@,
    {
        Error::Internal(message.to_owned())
    }

    /// Create a new protocol error.
    pub fn protocol(code: ErrorCode, message: &str) -> (e: Error)
        ensures
            e matches Error::Protocol { code: c, message: m, data: d } && c == code && m@
                == message@ && d is None,
    {
        Error::Protocol { code, message: message.to_owned(), data: None }
    }

    /// Get the error code for this error.
    pub fn error_code(&self) -> (r: Option<ErrorCode>)
        ensures
            r == spec_error_code(*self),
    {
        match self {
            Error::Protocol { code, .. } => Some(*code),
            Error::Timeout(_) => Some(ErrorCode::REQUEST_TIMEOUT()),
            Error::Authentication(_) => Some(ErrorCode::AUTHENTICATION_REQUIRED()),
            Error::RateLimited => Some(ErrorCode::RATE_LIMITED()),
            Error::CircuitBreakerOpen => Some(ErrorCode::CIRCUIT_BREAKER_OPEN()),
            _ => None,
        }
    }

    /// Create a validation error.
    pub fn validation(message: &str) -> (e: Error)
        ensures
            e matches Error::Validation(m) && m@ == message@,
    {
        Error::Validation(message.to_owned())
    }

    /// Create a parse error.
    pub fn parse(message: &str) -> (e: Error)
        ensures
            e matches Error::Protocol { code: c, message: m, data: d } && c == ErrorCode(-32700i32)
                && m@ == message@ && d is None,
    {
        Error::Protocol { code: ErrorCode::PARSE_ERROR(), message: message.to_owned(), data: None }
    }

    /// Create an authentication error.
    pub fn authentication(message: &str) -> (e: Error)
        ensures
            e matches Error::Authentication(m) && m@ == message@,
    {
        Error::Authentication(message.to_owned())
    }

    /// Create a timeout error.
    pub fn timeout(duration_ms: u64) -> (e: Error)
        ensures
            e == Error::Timeout(duration_ms),
    {
        Error::Timeout(duration_ms)
    }

    /// Create a not found error.
    pub fn not_found(message: &str) -> (e: Error)
        ensures
            e matches Error::NotFound(m) && m@ == message@,
    {
        Error::NotFound(message.to_owned())
    }

    /// Create an unsupported capability error.
    pub fn unsupported_capability(capability: &str) -> (e: Error)
        ensures
            e matches Error::UnsupportedCapability(m) && m@ == capability@,
    {
        Error::UnsupportedCapability(capability.to_owned())
    }

    /// Create from JSON-RPC error.
    pub fn from_jsonrpc_error(error: JSONRPCError) -> (e: Error)
        ensures
            e == (Error::Protocol {
                code: ErrorCode(error.code),
                message: error.message,
                data: error.data,
            }),
    {
        Error::Protocol { code: ErrorCode(error.code), message: error.message, data: error.data }
    }

    /// Create a protocol error with just a message.
    pub fn protocol_msg(message: &str) -> (e: Error)
        ensures
            e matches Error::Protocol { code: c, message: m, data: d } && c == ErrorCode(-32603i32)
                && m@ == message@ && d is None,
    {
        Error::Protocol {
            code: ErrorCode::INTERNAL_ERROR(),
            message: message.to_owned(),
            data: None,
        }
    }

    /// Check if this error matches a specific error code.
    pub fn is_error_code(&self, code: ErrorCode) -> (b: bool)
        ensures
            b == (spec_error_code(*self) == Some(code)),
    {
        match self.error_code() {
            Some(c) => c.0 == code.0,
            None => false,
        }
    }

    /// Create a capability error.
    pub fn capability(message: &str) -> (e: Error)
        ensures
            e matches Error::UnsupportedCapability(m) && m@ == message@,
    {
        Error::UnsupportedCapability(message.to_owned())
    }

    /// Create an invalid state error.
    pub fn invalid_state(message: &str) -> (e: Error)
        ensures
            e matches Error::InvalidState(m) && m@ == message@,
    {
        Error::InvalidState(message.to_owned())
    }

    /// Create a cancelled error.
    pub fn cancelled() -> (e: Error)
        ensures
            e == Error::Cancelled,
    {
        Error::Cancelled
    }

    /// Create an invalid params error.
    pub fn invalid_params(message: &str) -> (e: Error)
        ensures
            e matches Error::Protocol { code: c, message: m, data: d } && c == ErrorCode(-32602i32)
                && m@ == message@ && d is None,
    {
        Error::Protocol {
            code: ErrorCode::INVALID_PARAMS(),
            message: message.to_owned(),
            data: None,
        }
    }

    /// Create a method not found error: the message names the method.
    pub fn method_not_found(method: &str) -> (e: Error)
        ensures
            e matches Error::Protocol { code: c, message: m, data: d } && c == ErrorCode(-32601i32)
                && m@ == "Method not found: "@ + method@ && d is None,
    {
        let mut v: Vec<char> = Vec::new();
        extend_chars(&mut v, "Method not found: ");
        extend_chars(&mut v, method);
        Error::Protocol {
            code: ErrorCode::METHOD_NOT_FOUND(),
            message: string_of(v.as_slice()),
            data: None,
        }
    }

    /// The message of this error, as it is displayed.
    pub fn to_string(&self) -> (s: String)
        ensures
            s@ == error_text(*self),
    {
        let mut v: Vec<char> = Vec::new();
        match self {
            Error::Protocol { code, message, .. } => {
                extend_chars(&mut v, "Protocol error: ");
                push_int_text(&mut v, code.0 as i64);
                extend_chars(&mut v, " - ");
                extend_chars(&mut v, message.as_str());
            },
            Error::Transport(t) => {
                extend_chars(&mut v, "Transport error: ");
                let tt = t.to_string();
                extend_chars(&mut v, tt.as_str());
            },
            Error::Serialization(m) => {
                extend_chars(&mut v, "Serialization error: ");
                extend_chars(&mut v, m.as_str());
            },
            Error::Validation(m) => {
                extend_chars(&mut v, "Validation error: ");
                extend_chars(&mut v, m.as_str());
            },
            Error::Authentication(m) => {
                extend_chars(&mut v, "Authentication error: ");
                extend_chars(&mut v, m.as_str());
            },
            Error::Timeout(ms) => {
                extend_chars(&mut v, "Request timed out after ");
                push_nat_digits(&mut v, *ms);
                extend_chars(&mut v, "ms");
            },
            Error::UnsupportedCapability(m) => {
                extend_chars(&mut v, "Capability not supported: ");
                extend_chars(&mut v, m.as_str());
            },
            Error::Internal(m) => {
                extend_chars(&mut v, "Internal error: ");
                extend_chars(&mut v, m.as_str());
            },
            Error::NotFound(m) => {
                extend_chars(&mut v, "Resource not found: ");
                extend_chars(&mut v, m.as_str());
            },
            Error::InvalidState(m) => {
                extend_chars(&mut v, "Invalid state: ");
                extend_chars(&mut v, m.as_str());
            },
            Error::Cancelled => {
                extend_chars(&mut v, "Operation cancelled");
            },
            Error::RateLimited => {
                extend_chars(&mut v, "Rate limit exceeded");
            },
            Error::CircuitBreakerOpen => {
                extend_chars(&mut v, "Circuit breaker is open");
            },
            Error::Other(m) => {
                extend_chars(&mut v, m.as_str());
            },
        }
        string_of(v.as_slice())
    }
}


/// A code made from an integer gives that integer back, and a code made from
/// that again is the same code.
pub proof fn lemma_error_code_roundtrip(code: i32)
    ensures
        ErrorCode(code).0 == code,
        ErrorCode(ErrorCode(code).0) == ErrorCode(code),
{
}

/// A parse error carries its code, which lies in the range reserved for
/// JSON-RPC errors.
pub proof fn lemma_parse_error_code(e: Error)
    requires
        e matches Error::Protocol { code, .. } && code == ErrorCode(-32700i32),
    ensures
        spec_error_code(e) matches Some(c) && -32999 <= c.0 <= -32000,
{
}

} // verus!
