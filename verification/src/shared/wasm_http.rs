//! The session bookkeeping of the HTTP transport for browser environments:
//! which headers a request carries, what a response updates, and the error
//! for a failed status. The Fetch call itself belongs to the host.
use vstd::prelude::*;
use crate::error::Error;
use crate::server::simple_prompt::opt_view;
use crate::text::{extend_chars, nat_text, push_nat_digits, string_of};

verus! {

/// HTTP transport configuration.
#[derive(Debug, Clone)]
pub struct WasmHttpConfig {
    /// The HTTP endpoint URL
    pub url: String,
    /// Additional headers to include in requests
    pub extra_headers: Vec<(String, String)>,
}

/// The texts of header pairs.
pub open spec fn pairs_view(v: Seq<(String, String)>) -> Seq<(Seq<char>, Seq<char>)> {
    v.map_values(|p: (String, String)| (p.0@, p.1@))
}

/// The headers of a request: content type and accept, the session id and
/// protocol version when known, then the extra headers.
pub open spec fn request_headers_spec(
    session: Option<Seq<char>>,
    version: Option<Seq<char>>,
    extra: Seq<(Seq<char>, Seq<char>)>,
) -> Seq<(Seq<char>, Seq<char>)> {
    seq![("Content-Type"@, "application/json"@), ("Accept"@, "application/json"@)]
        + (match session {
        Some(s) => seq![("mcp-session-id"@, s)],
        None => Seq::empty(),
    }) + (match version {
        Some(v) => seq![("mcp-protocol-version"@, v)],
        None => Seq::empty(),
    }) + extra
}

fn clone_opt(s: &Option<String>) -> (r: Option<String>)
    ensures
        opt_view(r) == opt_view(*s),
{
    match s {
        Some(t) => Some(t.clone()),
        None => None,
    }
}

/// HTTP transport state.
#[derive(Debug, Clone)]
pub struct WasmHttpTransport {
    config: WasmHttpConfig,
    session_id: Option<String>,
    protocol_version: Option<String>,
}

impl WasmHttpTransport {
    /// The URL, the session id and the protocol version.
    pub closed spec fn state(&self) -> (Seq<char>, Option<Seq<char>>, Option<Seq<char>>) {
        (self.config.url@, opt_view(self.session_id), opt_view(self.protocol_version))
    }

    /// The extra headers.
    pub closed spec fn extra(&self) -> Seq<(Seq<char>, Seq<char>)> {
        pairs_view(self.config.extra_headers@)
    }

    /// Create a new transport without a session.
    pub fn new(config: WasmHttpConfig) -> (t: WasmHttpTransport)
        ensures
            t.state() == (config.url@, None::<Seq<char>>, None::<Seq<char>>),
            t.extra() == pairs_view(config.extra_headers@),
    {
        WasmHttpTransport { config, session_id: None, protocol_version: None }
    }

    /// Get the current session ID, if any.
    pub fn session_id(&self) -> (s: Option<String>)
        ensures
            opt_view(s) == self.state().1,
    {
        clone_opt(&self.session_id)
    }

    /// Get the protocol version, if any.
    pub fn protocol_version(&self) -> (s: Option<String>)
        ensures
            opt_view(s) == self.state().2,
    {
        clone_opt(&self.protocol_version)
    }

    /// Set the protocol version for subsequent requests.
    pub fn set_protocol_version(&mut self, version: Option<String>)
        ensures
            final(self).state() == (old(self).state().0, old(self).state().1, opt_view(version)),
            final(self).extra() == old(self).extra(),
    {
        self.protocol_version = version;
    }

    /// The URL requests go to.
    pub fn url(&self) -> (u: &str)
        ensures
            u@ == self.state().0,
    {
        self.config.url.as_str()
    }

    /// The headers of the next request.
    pub fn request_headers(&self) -> (h: Vec<(String, String)>)
        ensures
            pairs_view(h@) == request_headers_spec(self.state().1, self.state().2, self.extra()),
    {
        let mut h: Vec<(String, String)> = Vec::new();
        h.push(("Content-Type".to_owned(), "application/json".to_owned()));
        h.push(("Accept".to_owned(), "application/json".to_owned()));
        let ghost base = pairs_view(h@);
        if let Some(s) = &self.session_id {
            h.push(("mcp-session-id".to_owned(), s.clone()));
        }
        let ghost with_session = pairs_view(h@);
        if let Some(v) = &self.protocol_version {
            h.push(("mcp-protocol-version".to_owned(), v.clone()));
        }
        let ghost before_extra = pairs_view(h@);
        assert(before_extra == seq![("Content-Type"@, "application/json"@), ("Accept"@, "application/json"@)]
            + (match opt_view(self.session_id) {
            Some(s) => seq![("mcp-session-id"@, s)],
            None => Seq::empty(),
        }) + (match opt_view(self.protocol_version) {
            Some(v) => seq![("mcp-protocol-version"@, v)],
            None => Seq::empty(),
        }));
        let mut i: usize = 0;
        while i < self.config.extra_headers.len()
            invariant
                i <= self.config.extra_headers@.len(),
                pairs_view(h@) == before_extra + pairs_view(self.config.extra_headers@).subrange(0, i as int),
            decreases self.config.extra_headers@.len() - i,
        {
            let k = self.config.extra_headers[i].0.clone();
            let v = self.config.extra_headers[i].1.clone();
            let ghost old_h = h@;
            let ghost pe = pairs_view(self.config.extra_headers@);
            h.push((k, v));
            assert(pairs_view(h@) =~= pairs_view(old_h).push((k@, v@)));
            assert(pe[i as int] == (k@, v@));
            assert(pe.subrange(0, i + 1) =~= pe.subrange(0, i as int).push(pe[i as int]));
            i = i + 1;
        }
        assert(pairs_view(self.config.extra_headers@).subrange(0, i as int) == pairs_view(
            self.config.extra_headers@,
        ));
        h
    }

    /// Take the session id and protocol version that a response carries.
    pub fn absorb_response(&mut self, session_id: Option<String>, protocol_version: Option<String>)
        ensures
            final(self).state() == (
                old(self).state().0,
                match session_id {
                    Some(s) => Some(s@),
                    None => old(self).state().1,
                },
                match protocol_version {
                    Some(v) => Some(v@),
                    None => old(self).state().2,
                },
            ),
            final(self).extra() == old(self).extra(),
    {
        if let Some(s) = session_id {
            self.session_id = Some(s);
        }
        if let Some(v) = protocol_version {
            self.protocol_version = Some(v);
        }
    }
}

/// The error for a response with a failed status.
pub fn http_error(status: u16, text: Option<String>) -> (e: Error)
    ensures
        e matches Error::Internal(m) && m@ == "HTTP error "@ + nat_text(status as nat) + ": "@
            + match text {
            Some(t) => t@,
            None => "Unknown error"@,
        },
{
    let mut v: Vec<char> = Vec::new();
    extend_chars(&mut v, "HTTP error ");
    push_nat_digits(&mut v, status as u64);
    extend_chars(&mut v, ": ");
    match &text {
        Some(t) => extend_chars(&mut v, t.as_str()),
        None => extend_chars(&mut v, "Unknown error"),
    }
    Error::internal(string_of(v.as_slice()).as_str())
}

/// An HTTP client over the transport.
#[derive(Debug, Clone)]
pub struct WasmHttpClient {
    transport: WasmHttpTransport,
}

impl WasmHttpClient {
    /// The transport's state.
    pub closed spec fn state(&self) -> (Seq<char>, Option<Seq<char>>, Option<Seq<char>>) {
        self.transport.state()
    }

    /// Create a new HTTP client.
    pub fn new(config: WasmHttpConfig) -> (c: WasmHttpClient)
        ensures
            c.state() == (config.url@, None::<Seq<char>>, None::<Seq<char>>),
    {
        WasmHttpClient { transport: WasmHttpTransport::new(config) }
    }

    /// Get the current session ID.
    pub fn session_id(&self) -> (s: Option<String>)
        ensures
            opt_view(s) == self.state().1,
    {
        self.transport.session_id()
    }

    /// Get the protocol version.
    pub fn protocol_version(&self) -> (s: Option<String>)
        ensures
            opt_view(s) == self.state().2,
    {
        self.transport.protocol_version()
    }

    /// The transport, for the host to send through.
    pub fn transport_mut(&mut self) -> (t: &mut WasmHttpTransport)
        ensures
            t.state() == old(self).state(),
            final(self).state() == final(t).state(),
    {
        &mut self.transport
    }
}

} // verus!
