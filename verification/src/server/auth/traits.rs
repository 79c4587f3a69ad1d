//! Authentication context and scope-based tool authorization.
use vstd::prelude::*;
use crate::error::{Error, ErrorCode};
use crate::server::validation::str_eq;

verus! {

/// The texts of a sequence of strings.
pub open spec fn strings_view(v: Seq<String>) -> Seq<Seq<char>> {
    v.map_values(|s: String| s@)
}

/// Seconds since the Unix epoch on the system clock; a clock set before the
/// epoch reads as zero.
#[verifier::external_body]
fn unix_now_secs() -> u64 {
    match std::time::SystemTime::now().duration_since(std::time::UNIX_EPOCH) {
        Ok(d) => d.as_secs(),
        Err(_) => 0,
    }
}

/// Authentication context containing validated user information.
#[derive(Debug, Clone)]
pub struct AuthContext {
    /// Subject identifier (user ID).
    pub subject: String,
    /// Granted scopes/permissions.
    pub scopes: Vec<String>,
    /// Additional claims from the token, each value as JSON text.
    pub claims: Vec<(String, String)>,
    /// The token as it was presented, if available.
    pub token: Option<String>,
    /// Client ID that authenticated.
    pub client_id: Option<String>,
    /// Token expiration timestamp.
    pub expires_at: Option<u64>,
}

/// The context grants `scope`.
pub open spec fn grants(ctx: AuthContext, scope: Seq<char>) -> bool {
    strings_view(ctx.scopes@).contains(scope)
}

/// The context grants every scope of `scopes`.
pub open spec fn grants_all(ctx: AuthContext, scopes: Seq<Seq<char>>) -> bool {
    forall|i: int| 0 <= i < scopes.len() ==> #[trigger] grants(ctx, scopes[i])
}

/// The context grants some scope of `scopes`.
pub open spec fn grants_any(ctx: AuthContext, scopes: Seq<Seq<char>>) -> bool {
    exists|i: int| 0 <= i < scopes.len() && #[trigger] grants(ctx, scopes[i])
}

/// The texts of string slices.
pub open spec fn strs_view(v: Seq<&str>) -> Seq<Seq<char>> {
    v.map_values(|s: &str| s@)
}

/// The token has expired at `now` (seconds since the epoch).
pub open spec fn expired_at(ctx: AuthContext, now: u64) -> bool {
    match ctx.expires_at {
        Some(t) => t < now,
        None => false,
    }
}

impl AuthContext {
    /// Check if the context has a specific scope.
    pub fn has_scope(&self, scope: &str) -> (b: bool)
        ensures
            b == grants(*self, scope@),
    {
        let mut i: usize = 0;
        while i < self.scopes.len()
            invariant
                i <= self.scopes@.len(),
                forall|j: int| 0 <= j < i ==> self.scopes@[j]@ != scope@,
            decreases self.scopes@.len() - i,
        {
            if str_eq(self.scopes[i].as_str(), scope) {
                assert(strings_view(self.scopes@)[i as int] == scope@);
                return true;
            }
            i = i + 1;
        }
        proof {
            if strings_view(self.scopes@).contains(scope@) {
                let j = choose|j: int| 0 <= j < strings_view(self.scopes@).len()
                    && strings_view(self.scopes@)[j] == scope@;
                assert(self.scopes@[j]@ == scope@);
            }
        }
        false
    }

    /// Check if the context has all specified scopes.
    pub fn has_all_scopes(&self, scopes: &[&str]) -> (b: bool)
        ensures
            b == grants_all(*self, strs_view(scopes@)),
    {
        let mut i: usize = 0;
        while i < scopes.len()
            invariant
                i <= scopes@.len(),
                forall|j: int| 0 <= j < i ==> #[trigger] grants(*self, strs_view(scopes@)[j]),
            decreases scopes@.len() - i,
        {
            if !self.has_scope(scopes[i]) {
                assert(!grants(*self, strs_view(scopes@)[i as int]));
                return false;
            }
            i = i + 1;
        }
        true
    }

    /// Check if the context has any of the specified scopes.
    pub fn has_any_scope(&self, scopes: &[&str]) -> (b: bool)
        ensures
            b == grants_any(*self, strs_view(scopes@)),
    {
        let mut i: usize = 0;
        while i < scopes.len()
            invariant
                i <= scopes@.len(),
                forall|j: int| 0 <= j < i ==> !(#[trigger] grants(*self, strs_view(scopes@)[j])),
            decreases scopes@.len() - i,
        {
            if self.has_scope(scopes[i]) {
                assert(grants(*self, strs_view(scopes@)[i as int]));
                return true;
            }
            i = i + 1;
        }
        false
    }

    /// Whether the token has expired at `now_secs` seconds since the epoch:
    /// a context without an expiry never expires.
    pub fn is_expired_at(&self, now_secs: u64) -> (b: bool)
        ensures
            b == expired_at(*self, now_secs),
    {
        match self.expires_at {
            Some(t) => t < now_secs,
            None => false,
        }
    }

    /// Check if the token is expired, by the system clock: the answer is
    /// the expiry check at the clock's reading, which is not known here.
    pub fn is_expired(&self) -> (b: bool)
        ensures
            exists|now: u64| b == expired_at(*self, now),
            self.expires_at is None ==> !b,
    {
        let now = unix_now_secs();
        self.is_expired_at(now)
    }
}

/// The check of `TokenValidator::validate_with_context` after a token was
/// validated: when scopes are required and one is missing, the request is
/// refused as invalid with "Insufficient scopes".
pub fn check_required_scopes(ctx: AuthContext, required_scopes: Option<&[&str]>) -> (r: Result<
    AuthContext,
    Error,
>)
    ensures
        match required_scopes {
            Some(s) if !grants_all(ctx, strs_view(s@)) => r matches Err(Error::Protocol {
                code,
                message,
                data,
            }) && code == ErrorCode(-32600i32) && message@ == "Insufficient scopes"@ && data is None,
            _ => r == Ok::<AuthContext, Error>(ctx),
        },
{
    if let Some(scopes) = required_scopes {
        if !ctx.has_all_scopes(scopes) {
            return Err(Error::protocol(ErrorCode::INVALID_REQUEST(), "Insufficient scopes"));
        }
    }
    Ok(ctx)
}

/// Copies strings.
fn clone_strings(v: &Vec<String>) -> (r: Vec<String>)
    ensures
        strings_view(r@) == strings_view(v@),
{
    let mut r: Vec<String> = Vec::new();
    let mut i: usize = 0;
    while i < v.len()
        invariant
            i <= v@.len(),
            r@.len() == i,
            forall|j: int| 0 <= j < i ==> r@[j]@ == v@[j]@,
        decreases v@.len() - i,
    {
        r.push(v[i].clone());
        i = i + 1;
    }
    assert(strings_view(r@) =~= strings_view(v@));
    r
}

/// The scopes that a list of tool entries requires, by tool name: a later
/// entry replaces an earlier one of the same name.
pub open spec fn tool_scopes_map(s: Seq<(String, Vec<String>)>) -> Map<Seq<char>, Seq<Seq<char>>>
    decreases s.len(),
{
    if s.len() == 0 {
        Map::empty()
    } else {
        tool_scopes_map(s.drop_last()).insert(s.last().0@, strings_view(s.last().1@))
    }
}

proof fn lemma_tool_scopes_prefix(s: Seq<(String, Vec<String>)>, i: int, k: Seq<char>)
    requires
        0 <= i <= s.len(),
        forall|j: int| i <= j < s.len() ==> (#[trigger] s[j]).0@ != k,
    ensures
        tool_scopes_map(s).dom().contains(k) == tool_scopes_map(s.subrange(0, i)).dom().contains(k),
        tool_scopes_map(s).dom().contains(k) ==> tool_scopes_map(s)[k] == tool_scopes_map(
            s.subrange(0, i),
        )[k],
    decreases s.len() - i,
{
    if i == s.len() {
        assert(s.subrange(0, i) == s);
    } else {
        assert(s.drop_last().subrange(0, i) == s.subrange(0, i));
        assert forall|j: int| i <= j < s.drop_last().len() implies (#[trigger] s.drop_last()[j]).0@
            != k by {
            assert(s.drop_last()[j] == s[j]);
        }
        lemma_tool_scopes_prefix(s.drop_last(), i, k);
        assert(s[s.len() - 1] == s.last());
    }
}

/// Simple scope-based tool authorizer.
#[derive(Debug, Clone)]
pub struct ScopeBasedAuthorizer {
    tool_scopes: Vec<(String, Vec<String>)>,
    default_scopes: Vec<String>,
}

impl ScopeBasedAuthorizer {
    /// Scopes required by tool name.
    pub closed spec fn tools(&self) -> Map<Seq<char>, Seq<Seq<char>>> {
        tool_scopes_map(self.tool_scopes@)
    }

    /// Scopes required by tools without an entry of their own.
    pub closed spec fn defaults(&self) -> Seq<Seq<char>> {
        strings_view(self.default_scopes@)
    }

    /// The scopes that a tool requires.
    pub open spec fn required(&self, tool: Seq<char>) -> Seq<Seq<char>> {
        if self.tools().dom().contains(tool) {
            self.tools()[tool]
        } else {
            self.defaults()
        }
    }

    /// Create a new authorizer: every tool requires `mcp:tools:use`.
    pub fn new() -> (a: ScopeBasedAuthorizer)
        ensures
            a.tools() == Map::<Seq<char>, Seq<Seq<char>>>::empty(),
            a.defaults() == seq!["mcp:tools:use"@],
    {
        let mut default_scopes: Vec<String> = Vec::new();
        default_scopes.push("mcp:tools:use".to_owned());
        let a = ScopeBasedAuthorizer { tool_scopes: Vec::new(), default_scopes };
        assert(a.defaults() =~= seq!["mcp:tools:use"@]);
        a
    }

    /// Add required scopes for a tool, replacing those it had.
    pub fn require_scopes(self, tool_name: String, scopes: Vec<String>) -> (a: ScopeBasedAuthorizer)
        ensures
            a.tools() == self.tools().insert(tool_name@, strings_view(scopes@)),
            a.defaults() == self.defaults(),
    {
        let mut s = self;
        let ghost before = s.tool_scopes@;
        s.tool_scopes.push((tool_name, scopes));
        assert(s.tool_scopes@.drop_last() == before);
        s
    }

    /// Set default required scopes for all tools.
    pub fn default_scopes(self, scopes: Vec<String>) -> (a: ScopeBasedAuthorizer)
        ensures
            a.tools() == self.tools(),
            a.defaults() == strings_view(scopes@),
    {
        let mut s = self;
        s.default_scopes = scopes;
        s
    }

    /// Index of the entry that decides the scopes of `tool`.
    fn entry_for(&self, tool_name: &str) -> (r: Option<usize>)
        ensures
            match r {
                Some(i) => i < self.tool_scopes@.len() && self.tools().dom().contains(tool_name@)
                    && self.tools()[tool_name@] == strings_view(self.tool_scopes@[i as int].1@),
                None => !self.tools().dom().contains(tool_name@),
            },
    {
        let mut i = self.tool_scopes.len();
        while i > 0
            invariant
                i <= self.tool_scopes@.len(),
                forall|j: int| i <= j < self.tool_scopes@.len() ==> (
                #[trigger] self.tool_scopes@[j]).0@ != tool_name@,
            decreases i,
        {
            if str_eq(self.tool_scopes[i - 1].0.as_str(), tool_name) {
                proof {
                    let s = self.tool_scopes@;
                    lemma_tool_scopes_prefix(s, i as int, tool_name@);
                    assert(s.subrange(0, i as int).drop_last() == s.subrange(0, i - 1));
                    assert(s.subrange(0, i as int).last() == s[i - 1]);
                }
                return Some(i - 1);
            }
            i = i - 1;
        }
        proof {
            lemma_tool_scopes_prefix(self.tool_scopes@, 0, tool_name@);
        }
        None
    }

    /// Get required scopes for a tool.
    pub fn required_scopes_for_tool(&self, tool_name: &str) -> (r: Vec<String>)
        ensures
            strings_view(r@) == self.required(tool_name@),
    {
        match self.entry_for(tool_name) {
            Some(i) => clone_strings(&self.tool_scopes[i].1),
            None => clone_strings(&self.default_scopes),
        }
    }

    /// Whether the context holds every scope that the tool requires.
    pub fn can_access_tool(&self, auth: &AuthContext, tool_name: &str) -> (b: bool)
        ensures
            b == grants_all(*auth, self.required(tool_name@)),
    {
        let required = self.required_scopes_for_tool(tool_name);
        let mut i: usize = 0;
        while i < required.len()
            invariant
                i <= required@.len(),
                strings_view(required@) == self.required(tool_name@),
                forall|j: int| 0 <= j < i ==> #[trigger] grants(*auth, strings_view(required@)[j]),
            decreases required@.len() - i,
        {
            if !auth.has_scope(required[i].as_str()) {
                assert(!grants(*auth, strings_view(required@)[i as int]));
                return false;
            }
            i = i + 1;
        }
        true
    }
}

impl Default for ScopeBasedAuthorizer {
    fn default() -> (a: ScopeBasedAuthorizer)
        ensures
            a.tools() == Map::<Seq<char>, Seq<Seq<char>>>::empty(),
            a.defaults() == seq!["mcp:tools:use"@],
    {
        ScopeBasedAuthorizer::new()
    }
}

} // verus!
