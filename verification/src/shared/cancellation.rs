//! A runtime-agnostic cancellation token and the extra context of handlers.
use vstd::prelude::*;
use std::sync::Arc;
use std::sync::atomic::AtomicBool;
use crate::server::auth::traits::AuthContext;

verus! {

/// A token that signals cancellation of an operation. Clones share one flag,
/// so a cancel through any clone is seen by all; what a read sees therefore
/// depends on the other clones and is not stated.
#[derive(Clone, Debug)]
pub struct CancellationToken {
    is_cancelled: Arc<AtomicBool>,
}

impl CancellationToken {
    /// Creates a new token that is not cancelled.
    pub fn new() -> (t: CancellationToken) {
        CancellationToken { is_cancelled: Arc::new(AtomicBool::new(false)) }
    }

    /// Cancels the token, signaling that the operation should be aborted.
    pub fn cancel(&self) {
        self.is_cancelled.store(true, std::sync::atomic::Ordering::Relaxed);
    }

    /// Checks if the token has been cancelled.
    pub fn is_cancelled(&self) -> (b: bool) {
        self.is_cancelled.load(std::sync::atomic::Ordering::Relaxed)
    }
}

impl Default for CancellationToken {
    fn default() -> (t: CancellationToken) {
        CancellationToken::new()
    }
}

/// Extra context passed to request handlers.
#[derive(Clone, Debug)]
pub struct RequestHandlerExtra {
    /// Cancellation token for the request
    pub cancellation_token: CancellationToken,
    /// Request ID
    pub request_id: String,
    /// Session ID
    pub session_id: Option<String>,
    /// Authentication info, as JSON text
    pub auth_info: Option<String>,
    /// Validated authentication context (if auth is enabled)
    pub auth_context: Option<AuthContext>,
}

impl RequestHandlerExtra {
    /// Create new handler extra context.
    pub fn new(request_id: String, cancellation_token: CancellationToken) -> (e: RequestHandlerExtra)
        ensures
            e.request_id == request_id,
            e.cancellation_token == cancellation_token,
            e.session_id is None,
            e.auth_info is None,
            e.auth_context is None,
    {
        RequestHandlerExtra {
            cancellation_token,
            request_id,
            session_id: None,
            auth_info: None,
            auth_context: None,
        }
    }

    /// Set the session ID.
    pub fn with_session_id(self, session_id: Option<String>) -> (e: RequestHandlerExtra)
        ensures
            e == (RequestHandlerExtra { session_id, ..self }),
    {
        RequestHandlerExtra { session_id, ..self }
    }

    /// Set the auth info.
    pub fn with_auth_info(self, auth_info: Option<String>) -> (e: RequestHandlerExtra)
        ensures
            e == (RequestHandlerExtra { auth_info, ..self }),
    {
        RequestHandlerExtra { auth_info, ..self }
    }

    /// Set the auth context.
    pub fn with_auth_context(self, auth_context: Option<AuthContext>) -> (e: RequestHandlerExtra)
        ensures
            e == (RequestHandlerExtra { auth_context, ..self }),
    {
        RequestHandlerExtra { auth_context, ..self }
    }

    /// Get the auth context if available.
    pub fn auth_context(&self) -> (r: Option<&AuthContext>)
        ensures
            match r {
                Some(c) => self.auth_context == Some(*c),
                None => self.auth_context is None,
            },
    {
        match &self.auth_context {
            Some(c) => Some(c),
            None => None,
        }
    }

    /// Check if the request has been cancelled.
    pub fn is_cancelled(&self) -> (b: bool) {
        self.cancellation_token.is_cancelled()
    }
}

} // verus!
