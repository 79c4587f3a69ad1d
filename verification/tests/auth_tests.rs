use pmcp::error::Error;
use pmcp::server::auth::proxy::{
    accept_validated, accept_validated_at, extract_bearer_token, introspection_unavailable,
    NoOpAuthProvider, ProxyProviderConfig,
};
use pmcp::server::auth::traits::{check_required_scopes, AuthContext, ScopeBasedAuthorizer};

fn context(scopes: &[&str], expires_at: Option<u64>) -> AuthContext {
    AuthContext {
        subject: "user".to_string(),
        scopes: scopes.iter().map(|s| s.to_string()).collect(),
        claims: vec![],
        token: None,
        client_id: None,
        expires_at,
    }
}

#[test]
fn scope_checks() {
    let c = context(&["read", "write"], None);
    assert!(c.has_scope("read"));
    assert!(!c.has_scope("admin"));
    assert!(c.has_all_scopes(&["read", "write"]));
    assert!(!c.has_all_scopes(&["read", "admin"]));
    assert!(c.has_all_scopes(&[]));
    assert!(c.has_any_scope(&["admin", "write"]));
    assert!(!c.has_any_scope(&[]));
}

#[test]
fn expiry() {
    assert!(!context(&[], None).is_expired());
    assert!(context(&[], Some(100)).is_expired_at(101));
    assert!(!context(&[], Some(100)).is_expired_at(100));
    assert!(context(&[], Some(1)).is_expired());
}

#[test]
fn bearer_tokens() {
    assert_eq!(extract_bearer_token(Some("Bearer abc")), Some("abc".to_string()));
    assert_eq!(extract_bearer_token(Some("Bearer ")), Some(String::new()));
    assert_eq!(extract_bearer_token(Some("bearer abc")), None);
    assert_eq!(extract_bearer_token(Some("Basic abc")), None);
    assert_eq!(extract_bearer_token(None), None);
}

#[test]
fn validated_tokens() {
    let ok = accept_validated_at(Ok(context(&["a"], Some(50))), 40).unwrap().unwrap();
    assert_eq!(ok.subject, "user");
    match accept_validated_at(Ok(context(&["a"], Some(50))), 60) {
        Err(Error::Protocol { code, message, .. }) => {
            assert_eq!(code.as_i32(), -32600);
            assert_eq!(message, "Token expired");
        },
        _ => panic!("expected an expired token"),
    }
    assert!(matches!(accept_validated(Err(Error::internal("x"))), Err(Error::Internal(_))));
    assert!(accept_validated(Ok(context(&[], None))).unwrap().is_some());
    match introspection_unavailable() {
        Error::Protocol { code, .. } => assert_eq!(code.as_i32(), -32601),
        _ => panic!("expected a protocol error"),
    }
}

#[test]
fn required_scopes_check() {
    assert!(check_required_scopes(context(&["a"], None), None).is_ok());
    assert!(check_required_scopes(context(&["a"], None), Some(&["a"])).is_ok());
    match check_required_scopes(context(&["a"], None), Some(&["a", "b"])) {
        Err(Error::Protocol { code, message, .. }) => {
            assert_eq!(code.as_i32(), -32600);
            assert_eq!(message, "Insufficient scopes");
        },
        _ => panic!("expected insufficient scopes"),
    }
}

#[test]
fn scope_based_authorizer() {
    let auth = ScopeBasedAuthorizer::new()
        .require_scopes("admin_tool".to_string(), vec!["admin".to_string()])
        .require_scopes("admin_tool".to_string(), vec!["admin".to_string(), "write".to_string()]);
    assert_eq!(auth.required_scopes_for_tool("other"), vec!["mcp:tools:use".to_string()]);
    assert_eq!(
        auth.required_scopes_for_tool("admin_tool"),
        vec!["admin".to_string(), "write".to_string()]
    );
    let user = context(&["mcp:tools:use"], None);
    assert!(auth.can_access_tool(&user, "other"));
    assert!(!auth.can_access_tool(&user, "admin_tool"));
    let admin = context(&["admin", "write"], None);
    assert!(auth.can_access_tool(&admin, "admin_tool"));
    let open = ScopeBasedAuthorizer::default().default_scopes(vec![]);
    assert!(open.can_access_tool(&context(&[], None), "anything"));
}

#[test]
fn development_provider() {
    let p = NoOpAuthProvider;
    let c = p.validate_request(None).unwrap().unwrap();
    assert_eq!(c.subject, "dev-user");
    assert_eq!(c.client_id, Some("dev-client".to_string()));
    assert!(c.has_scope("mcp:tools:use"));
    assert!(!p.is_required());
}

#[test]
fn proxy_config_defaults() {
    let c = ProxyProviderConfig::default();
    assert_eq!(c.upstream_url, "");
    assert!(c.enable_cache);
    assert_eq!(c.cache_ttl, 300);
    assert!(c.introspection_endpoint.is_none());
}
