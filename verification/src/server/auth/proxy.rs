//! Decisions of the proxy and development authentication providers.
use vstd::prelude::*;
use crate::error::{Error, ErrorCode};
use crate::server::auth::traits::{AuthContext, expired_at, strings_view};
use crate::text::{chars_of, has_prefix, starts_with, string_of};

verus! {

/// Proxy provider configuration.
#[derive(Clone, Debug)]
pub struct ProxyProviderConfig {
    /// Upstream OAuth server URL for token validation.
    pub upstream_url: String,
    /// Optional introspection endpoint.
    pub introspection_endpoint: Option<String>,
    /// Client ID for introspection requests.
    pub client_id: Option<String>,
    /// Client secret for introspection requests.
    pub client_secret: Option<String>,
    /// Whether to cache token validation results.
    pub enable_cache: bool,
    /// Cache TTL in seconds.
    pub cache_ttl: u64,
}

impl Default for ProxyProviderConfig {
    /// No upstream, no endpoint or credentials, caching on for 300 seconds.
    fn default() -> (c: ProxyProviderConfig)
        ensures
            c.upstream_url@ == Seq::<char>::empty(),
            c.introspection_endpoint is None,
            c.client_id is None,
            c.client_secret is None,
            c.enable_cache,
            c.cache_ttl == 300,
    {
        ProxyProviderConfig {
            upstream_url: String::new(),
            introspection_endpoint: None,
            client_id: None,
            client_secret: None,
            enable_cache: true,
            cache_ttl: 300,
        }
    }
}

/// The token of an `Authorization` header: what follows `Bearer `.
pub open spec fn bearer_token(header: Option<Seq<char>>) -> Option<Seq<char>> {
    match header {
        Some(h) => if has_prefix(h, "Bearer "@) {
            Some(h.subrange(7, h.len() as int))
        } else {
            None
        },
        None => None,
    }
}

/// The texts of an optional string slice.
pub open spec fn opt_text(s: Option<&str>) -> Option<Seq<char>> {
    match s {
        Some(t) => Some(t@),
        None => None,
    }
}

/// Extract the bearer token from an authorization header.
pub fn extract_bearer_token(authorization_header: Option<&str>) -> (r: Option<String>)
    ensures
        match r {
            Some(t) => bearer_token(opt_text(authorization_header)) == Some(t@),
            None => bearer_token(opt_text(authorization_header)) is None,
        },
{
    match authorization_header {
        None => None,
        Some(h) => {
            let cs = chars_of(h);
            proof {
                reveal_strlit("Bearer ");
            }
            if starts_with(cs.as_slice(), "Bearer ") {
                assert(cs@.subrange(7, cs@.len() as int) == h@.subrange(7, h@.len() as int));
                Some(string_of(&cs.as_slice()[7..cs.len()]))
            } else {
                None
            }
        },
    }
}

/// What a request comes to once its token was validated at `now_secs`: an
/// expired context is refused as an invalid request with "Token expired",
/// another one is accepted, and a validation error is passed on.
pub fn accept_validated_at(result: Result<AuthContext, Error>, now_secs: u64) -> (r: Result<
    Option<AuthContext>,
    Error,
>)
    ensures
        match result {
            Ok(ctx) => if expired_at(ctx, now_secs) {
                r matches Err(Error::Protocol { code, message, data }) && code == ErrorCode(
                    -32600i32,
                ) && message@ == "Token expired"@ && data is None
            } else {
                r == Ok::<Option<AuthContext>, Error>(Some(ctx))
            },
            Err(e) => r == Err::<Option<AuthContext>, Error>(e),
        },
{
    match result {
        Ok(ctx) => {
            if ctx.is_expired_at(now_secs) {
                Err(Error::protocol(ErrorCode::INVALID_REQUEST(), "Token expired"))
            } else {
                Ok(Some(ctx))
            }
        },
        Err(e) => Err(e),
    }
}

/// `accept_validated_at` by the system clock.
pub fn accept_validated(result: Result<AuthContext, Error>) -> (r: Result<Option<AuthContext>, Error>)
    ensures
        match result {
            Ok(ctx) => ctx.expires_at is None ==> r == Ok::<Option<AuthContext>, Error>(Some(ctx)),
            Err(e) => r == Err::<Option<AuthContext>, Error>(e),
        },
{
    match result {
        Ok(ctx) => {
            if ctx.is_expired() {
                Err(Error::protocol(ErrorCode::INVALID_REQUEST(), "Token expired"))
            } else {
                Ok(Some(ctx))
            }
        },
        Err(e) => Err(e),
    }
}

/// The answer when no validator is configured: introspection against the
/// upstream server is not available.
pub fn introspection_unavailable() -> (e: Error)
    ensures
        e matches Error::Protocol { code, message, data } && code == ErrorCode(-32601i32)
            && message@ == "Token introspection not yet implemented. Please provide a custom validator."@
            && data is None,
{
    Error::protocol(
        ErrorCode::METHOD_NOT_FOUND(),
        "Token introspection not yet implemented. Please provide a custom validator.",
    )
}

/// No-op authentication provider for development and testing.
#[derive(Debug, Clone)]
pub struct NoOpAuthProvider;

/// The context that the development provider grants.
pub open spec fn is_dev_context(c: AuthContext) -> bool {
    &&& c.subject@ == "dev-user"@
    &&& strings_view(c.scopes@) == seq!["read"@, "write"@, "admin"@, "mcp:tools:use"@]
    &&& c.claims@.len() == 0
    &&& c.token is None
    &&& c.client_id matches Some(id) && id@ == "dev-client"@
    &&& c.expires_at is None
}

impl NoOpAuthProvider {
    /// The development user with all common scopes.
    pub fn dev_context() -> (c: AuthContext)
        ensures
            is_dev_context(c),
    {
        let mut scopes: Vec<String> = Vec::new();
        scopes.push("read".to_owned());
        scopes.push("write".to_owned());
        scopes.push("admin".to_owned());
        scopes.push("mcp:tools:use".to_owned());
        let c = AuthContext {
            subject: "dev-user".to_owned(),
            scopes,
            claims: Vec::new(),
            token: None,
            client_id: Some("dev-client".to_owned()),
            expires_at: None,
        };
        assert(strings_view(c.scopes@) =~= seq!["read"@, "write"@, "admin"@, "mcp:tools:use"@]);
        c
    }

    /// Every request is accepted as the development user.
    pub fn validate_request(&self, authorization_header: Option<&str>) -> (r: Result<
        Option<AuthContext>,
        Error,
    >)
        ensures
            r matches Ok(Some(c)) && is_dev_context(c),
    {
        Ok(Some(NoOpAuthProvider::dev_context()))
    }

    /// Authentication is not required in development mode.
    pub fn is_required(&self) -> (b: bool)
        ensures
            !b,
    {
        false
    }
}

} // verus!
