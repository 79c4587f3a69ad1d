//! The transport-independent server core: its state (server information,
//! registered tool and prompt handlers, the resource handler, whether the
//! client has initialized the session) and its decisions (which requests are
//! served before and after initialization, protocol version negotiation,
//! which handler a request goes to, and how a handler's outcome becomes a
//! response). Running the handlers, which are asynchronous, is left to the
//! caller.
use vstd::prelude::*;
use crate::error::{error_text, Error, JSONRPCError};
use crate::server::validation::str_eq;
use crate::server::simple_prompt::PromptInfo;
use crate::server::simple_resources::ResourceInfo;
use crate::server::simple_tool::ToolInfo;
use crate::text::{extend_chars, string_of};

verus! {

/// The kinds of request that the core tells apart.
#[derive(Debug, Clone, Copy, PartialEq, Eq, Structural)]
pub enum RequestKind {
    /// `initialize`
    Initialize,
    /// `tools/list`
    ListTools,
    /// `tools/call`
    CallTool,
    /// `prompts/list`
    ListPrompts,
    /// `prompts/get`
    GetPrompt,
    /// `resources/list`
    ListResources,
    /// `resources/read`
    ReadResource,
    /// `resources/templates/list`
    ListResourceTemplates,
    /// Any other client request
    OtherClient,
    /// A server request
    Server,
}

/// Where a request goes: to its handler, or straight to an error response.
#[derive(Debug, Clone, PartialEq, Eq)]
pub enum Route {
    /// Serve the request
    Handle(RequestKind),
    /// Answer with an error
    Reject {
        /// Error code
        code: i32,
        /// Error message
        message: String,
    },
}

/// Initialization is always served; server requests are never served; the
/// other client requests need an initialized server, and those without a
/// handler are not supported.
pub open spec fn route_spec(initialized: bool, kind: RequestKind) -> (Option<RequestKind>, i32, Seq<char>) {
    match kind {
        RequestKind::Initialize => (Some(kind), 0i32, Seq::empty()),
        RequestKind::Server => (None, -32601i32, "Method not supported"@),
        _ => if !initialized {
            (None, -32002i32, "Server not initialized. Call initialize first."@)
        } else if kind == RequestKind::OtherClient {
            (None, -32601i32, "Method not supported"@)
        } else {
            (Some(kind), 0i32, Seq::empty())
        },
    }
}

/// The view of a route.
pub open spec fn route_view(r: Route) -> (Option<RequestKind>, i32, Seq<char>) {
    match r {
        Route::Handle(k) => (Some(k), 0i32, Seq::empty()),
        Route::Reject { code, message } => (None, code, message@),
    }
}


/// The kind of a client request with the given method name.
pub open spec fn method_kind(method: Seq<char>) -> RequestKind {
    if method == "initialize"@ {
        RequestKind::Initialize
    } else if method == "tools/list"@ {
        RequestKind::ListTools
    } else if method == "tools/call"@ {
        RequestKind::CallTool
    } else if method == "prompts/list"@ {
        RequestKind::ListPrompts
    } else if method == "prompts/get"@ {
        RequestKind::GetPrompt
    } else if method == "resources/list"@ {
        RequestKind::ListResources
    } else if method == "resources/read"@ {
        RequestKind::ReadResource
    } else if method == "resources/templates/list"@ {
        RequestKind::ListResourceTemplates
    } else {
        RequestKind::OtherClient
    }
}

/// The kind of a client request, by its method name.
pub fn client_request_kind(method: &str) -> (k: RequestKind)
    ensures
        k == method_kind(method@),
{
    if str_eq(method, "initialize") {
        RequestKind::Initialize
    } else if str_eq(method, "tools/list") {
        RequestKind::ListTools
    } else if str_eq(method, "tools/call") {
        RequestKind::CallTool
    } else if str_eq(method, "prompts/list") {
        RequestKind::ListPrompts
    } else if str_eq(method, "prompts/get") {
        RequestKind::GetPrompt
    } else if str_eq(method, "resources/list") {
        RequestKind::ListResources
    } else if str_eq(method, "resources/read") {
        RequestKind::ReadResource
    } else if str_eq(method, "resources/templates/list") {
        RequestKind::ListResourceTemplates
    } else {
        RequestKind::OtherClient
    }
}

/// Route a request.
pub fn route_request(initialized: bool, kind: RequestKind) -> (r: Route)
    ensures
        route_view(r) == route_spec(initialized, kind),
{
    match kind {
        RequestKind::Initialize => Route::Handle(kind),
        RequestKind::Server => Route::Reject { code: -32601, message: "Method not supported".to_owned() },
        _ => {
            if !initialized {
                Route::Reject {
                    code: -32002,
                    message: "Server not initialized. Call initialize first.".to_owned(),
                }
            } else if kind == RequestKind::OtherClient {
                Route::Reject { code: -32601, message: "Method not supported".to_owned() }
            } else {
                Route::Handle(kind)
            }
        },
    }
}

/// Before initialization only `initialize` is served.
pub proof fn lemma_uninitialized_serves_only_initialize(kind: RequestKind)
    ensures
        route_spec(false, kind).0 is Some ==> kind == RequestKind::Initialize,
{
}

/// The payload of a response: a result as JSON text, or an error object.
#[derive(Debug, Clone, PartialEq, Eq)]
pub enum Payload {
    /// The result, as JSON text
    Result(String),
    /// The error
    Error(JSONRPCError),
}

/// A handler's failure is answered as an internal error (-32603) carrying
/// the error's text; its success as the result.
pub fn handler_payload(outcome: Result<String, Error>) -> (p: Payload)
    ensures
        match outcome {
            Ok(v) => p == Payload::Result(v),
            Err(e) => p matches Payload::Error(o) && o.code == -32603 && o.message@ == error_text(e)
                && o.data is None,
        },
{
    match outcome {
        Ok(v) => Payload::Result(v),
        Err(e) => Payload::Error(JSONRPCError { code: -32603, message: e.to_string(), data: None }),
    }
}

fn prefixed(prefix: &str, name: &str, suffix: &str) -> (s: String)
    ensures
        s@ == prefix@ + name@ + suffix@,
{
    let mut v: Vec<char> = Vec::new();
    extend_chars(&mut v, prefix);
    extend_chars(&mut v, name);
    extend_chars(&mut v, suffix);
    string_of(v.as_slice())
}

/// The request id under which a tool call runs.
pub fn tool_request_id(name: &str) -> (s: String)
    ensures
        s@ == "tool_"@ + name@,
{
    let s = prefixed("tool_", name, "");
    proof {
        reveal_strlit("");
        assert("tool_"@ + name@ + ""@ == "tool_"@ + name@);
    }
    s
}

/// The request id under which a prompt is rendered.
pub fn prompt_request_id(name: &str) -> (s: String)
    ensures
        s@ == "prompt_"@ + name@,
{
    let s = prefixed("prompt_", name, "");
    proof {
        reveal_strlit("");
        assert("prompt_"@ + name@ + ""@ == "prompt_"@ + name@);
    }
    s
}

/// The request id under which a resource is read.
pub fn read_request_id(uri: &str) -> (s: String)
    ensures
        s@ == "read_"@ + uri@,
{
    let s = prefixed("read_", uri, "");
    proof {
        reveal_strlit("");
        assert("read_"@ + uri@ + ""@ == "read_"@ + uri@);
    }
    s
}

/// The error for a call of an unknown tool.
pub fn tool_not_found(name: &str) -> (e: Error)
    ensures
        e matches Error::Internal(m) && m@ == "Tool '"@ + name@ + "' not found"@,
{
    Error::internal(prefixed("Tool '", name, "' not found").as_str())
}

/// The error for a request of an unknown prompt.
pub fn prompt_not_found(name: &str) -> (e: Error)
    ensures
        e matches Error::Internal(m) && m@ == "Prompt '"@ + name@ + "' not found"@,
{
    Error::internal(prefixed("Prompt '", name, "' not found").as_str())
}

/// The error for a read when no resource handler is configured.
pub fn resource_handler_missing(uri: &str) -> (e: Error)
    ensures
        e matches Error::Internal(m) && m@ == "Resource handler not available for '"@ + uri@ + "'"@,
{
    Error::internal(prefixed("Resource handler not available for '", uri, "'").as_str())
}


/// Name and version of a server or client implementation.
#[derive(Debug, Clone, PartialEq, Eq)]
pub struct Implementation {
    /// Name
    pub name: String,
    /// Version
    pub version: String,
}

/// The protocol versions a server speaks, and the one it answers with when
/// a client asks for another.
#[derive(Debug, Clone)]
pub struct ProtocolVersions {
    /// Supported versions
    pub supported: Vec<String>,
    /// Version used when the requested one is not supported
    pub default_version: String,
}

/// A request as the core reads it: its kind and the parameters that the
/// core itself looks at (JSON values are held as JSON text).
#[derive(Debug, Clone)]
pub enum CoreRequest {
    /// `initialize`
    Initialize {
        /// Version the client asks for
        protocol_version: String,
        /// Client capabilities, as JSON text
        capabilities: String,
    },
    /// `tools/list`
    ListTools,
    /// `tools/call`
    CallTool {
        /// Tool name
        name: String,
        /// Arguments, as JSON text
        arguments: String,
    },
    /// `prompts/list`
    ListPrompts,
    /// `prompts/get`
    GetPrompt {
        /// Prompt name
        name: String,
        /// Arguments, as JSON text
        arguments: String,
    },
    /// `resources/list`
    ListResources {
        /// Pagination cursor
        cursor: Option<String>,
    },
    /// `resources/read`
    ReadResource {
        /// Resource URI
        uri: String,
    },
    /// `resources/templates/list`
    ListResourceTemplates,
    /// Any other client request
    OtherClient,
    /// A server request
    Server,
}

/// The kind of a request.
pub open spec fn request_kind(r: CoreRequest) -> RequestKind {
    match r {
        CoreRequest::Initialize { .. } => RequestKind::Initialize,
        CoreRequest::ListTools => RequestKind::ListTools,
        CoreRequest::CallTool { .. } => RequestKind::CallTool,
        CoreRequest::ListPrompts => RequestKind::ListPrompts,
        CoreRequest::GetPrompt { .. } => RequestKind::GetPrompt,
        CoreRequest::ListResources { .. } => RequestKind::ListResources,
        CoreRequest::ReadResource { .. } => RequestKind::ReadResource,
        CoreRequest::ListResourceTemplates => RequestKind::ListResourceTemplates,
        CoreRequest::OtherClient => RequestKind::OtherClient,
        CoreRequest::Server => RequestKind::Server,
    }
}

impl CoreRequest {
    /// The kind of this request.
    pub fn kind(&self) -> (k: RequestKind)
        ensures
            k == request_kind(*self),
    {
        match self {
            CoreRequest::Initialize { .. } => RequestKind::Initialize,
            CoreRequest::ListTools => RequestKind::ListTools,
            CoreRequest::CallTool { .. } => RequestKind::CallTool,
            CoreRequest::ListPrompts => RequestKind::ListPrompts,
            CoreRequest::GetPrompt { .. } => RequestKind::GetPrompt,
            CoreRequest::ListResources { .. } => RequestKind::ListResources,
            CoreRequest::ReadResource { .. } => RequestKind::ReadResource,
            CoreRequest::ListResourceTemplates => RequestKind::ListResourceTemplates,
            CoreRequest::OtherClient => RequestKind::OtherClient,
            CoreRequest::Server => RequestKind::Server,
        }
    }
}

/// A result the core produces itself.
#[derive(Debug, Clone)]
pub enum CoreResult {
    /// The answer to `initialize`
    Initialized {
        /// Negotiated protocol version
        protocol_version: String,
        /// Server capabilities, as JSON text
        capabilities: String,
        /// Server name and version
        server_info: Implementation,
    },
    /// The registered tools, with no cursor
    Tools(Vec<ToolInfo>),
    /// The registered prompts, with no cursor
    Prompts(Vec<PromptInfo>),
    /// Resources, with no cursor
    Resources(Vec<ResourceInfo>),
    /// An empty list of resource templates, with no cursor
    ResourceTemplates,
    /// A tool's output: one text content item, not marked as an error
    ToolCalled {
        /// The tool's result as pretty-printed JSON text
        text: String,
    },
}

/// What the core does with a request: answer it at once, or hand it to a
/// registered handler under a request id.
#[derive(Debug, Clone)]
pub enum CoreStep {
    /// Answer with a result
    Reply(CoreResult),
    /// Answer with an error
    Fail(JSONRPCError),
    /// Run the tool registered at `index`
    CallTool {
        /// Position of the tool in the registry
        index: usize,
        /// Request id for the handler
        request_id: String,
        /// Arguments, as JSON text
        arguments: String,
    },
    /// Render the prompt registered at `index`
    GetPrompt {
        /// Position of the prompt in the registry
        index: usize,
        /// Request id for the handler
        request_id: String,
        /// Arguments, as JSON text
        arguments: String,
    },
    /// Ask the resource handler for its list
    ListResources {
        /// Request id for the handler
        request_id: String,
        /// Pagination cursor
        cursor: Option<String>,
    },
    /// Ask the resource handler for a resource
    ReadResource {
        /// Request id for the handler
        request_id: String,
        /// Resource URI
        uri: String,
    },
}

/// The state of a server core as the contracts see it.
pub struct CoreModel {
    /// Server name and version
    pub info: (Seq<char>, Seq<char>),
    /// Server capabilities, as JSON text
    pub capabilities: Seq<char>,
    /// Supported protocol versions
    pub supported: Seq<Seq<char>>,
    /// Fallback protocol version
    pub default_version: Seq<char>,
    /// Names of the registered tools
    pub tools: Seq<Seq<char>>,
    /// Names of the registered prompts
    pub prompts: Seq<Seq<char>>,
    /// Whether a resource handler is registered
    pub has_resources: bool,
    /// Whether `initialize` has been handled
    pub initialized: bool,
    /// Client capabilities received with `initialize`, as JSON text
    pub client_capabilities: Option<Seq<char>>,
}

/// The names of a registry.
pub open spec fn names_of<X>(s: Seq<(String, X)>) -> Seq<Seq<char>> {
    s.map_values(|p: (String, X)| p.0@)
}

/// No name occurs twice.
pub open spec fn names_distinct(s: Seq<Seq<char>>) -> bool {
    forall|i: int, j: int| 0 <= i < j < s.len() ==> s[i] != s[j]
}

/// The version agreed on for a requested one.
pub open spec fn negotiated(m: CoreModel, requested: Seq<char>) -> Seq<char> {
    if m.supported.contains(requested) {
        requested
    } else {
        m.default_version
    }
}

/// `s` answers with the error `code` and `message`.
pub open spec fn fails_with(s: CoreStep, code: i32, message: Seq<char>) -> bool {
    s matches CoreStep::Fail(e) && e.code == code && e.message@ == message && e.data is None
}

/// The text of an internal error with the given message.
pub open spec fn internal_text(message: Seq<char>) -> Seq<char> {
    "Internal error: "@ + message
}

/// `list` describes the tools `names`, in order, with no description and an
/// empty schema.
pub open spec fn lists_tools(list: Seq<ToolInfo>, names: Seq<Seq<char>>) -> bool {
    &&& list.len() == names.len()
    &&& forall|i: int|
        0 <= i < list.len() ==> (#[trigger] list[i]).name@ == names[i] && list[i].description is None
            && list[i].input_schema@ == "{}"@
}

/// `list` describes the prompts `names`, in order, with no description and
/// no arguments.
pub open spec fn lists_prompts(list: Seq<PromptInfo>, names: Seq<Seq<char>>) -> bool {
    &&& list.len() == names.len()
    &&& forall|i: int|
        0 <= i < list.len() ==> (#[trigger] list[i]).name@ == names[i] && list[i].description is None
            && list[i].arguments is None
}

/// `index` is the first position of `name` in `names`.
pub open spec fn first_at(names: Seq<Seq<char>>, name: Seq<char>, index: int) -> bool {
    0 <= index < names.len() && names[index] == name && forall|j: int| 0 <= j < index ==> names[j] != name
}

/// What the core answers to `req` in state `m`.
pub open spec fn core_step(m: CoreModel, req: CoreRequest, s: CoreStep) -> bool {
    let (route, code, message) = route_spec(m.initialized, request_kind(req));
    if route is None {
        fails_with(s, code, message)
    } else {
        match req {
            CoreRequest::Initialize { protocol_version, .. } => s matches CoreStep::Reply(
                CoreResult::Initialized { protocol_version: v, capabilities: c, server_info: i },
            ) && v@ == negotiated(m, protocol_version@) && c@ == m.capabilities && (i.name@, i.version@)
                == m.info,
            CoreRequest::ListTools => s matches CoreStep::Reply(CoreResult::Tools(list)) && lists_tools(
                list@,
                m.tools,
            ),
            CoreRequest::CallTool { name, arguments } => if m.tools.contains(name@) {
                s matches CoreStep::CallTool { index, request_id, arguments: a } && first_at(
                    m.tools,
                    name@,
                    index as int,
                ) && request_id@ == "tool_"@ + name@ && a@ == arguments@
            } else {
                fails_with(s, -32603i32, internal_text("Tool '"@ + name@ + "' not found"@))
            },
            CoreRequest::ListPrompts => s matches CoreStep::Reply(CoreResult::Prompts(list))
                && lists_prompts(list@, m.prompts),
            CoreRequest::GetPrompt { name, arguments } => if m.prompts.contains(name@) {
                s matches CoreStep::GetPrompt { index, request_id, arguments: a } && first_at(
                    m.prompts,
                    name@,
                    index as int,
                ) && request_id@ == "prompt_"@ + name@ && a@ == arguments@
            } else {
                fails_with(s, -32603i32, internal_text("Prompt '"@ + name@ + "' not found"@))
            },
            CoreRequest::ListResources { cursor } => if m.has_resources {
                s matches CoreStep::ListResources { request_id, cursor: c } && request_id@
                    == "list_resources"@ && opt_text(c) == opt_text(cursor)
            } else {
                s matches CoreStep::Reply(CoreResult::Resources(list)) && list@.len() == 0
            },
            CoreRequest::ReadResource { uri } => if m.has_resources {
                s matches CoreStep::ReadResource { request_id, uri: u } && request_id@ == "read_"@
                    + uri@ && u@ == uri@
            } else {
                fails_with(
                    s,
                    -32603i32,
                    internal_text("Resource handler not available for '"@ + uri@ + "'"@),
                )
            },
            CoreRequest::ListResourceTemplates => s matches CoreStep::Reply(
                CoreResult::ResourceTemplates,
            ),
            _ => false,
        }
    }
}

/// The text of an optional string.
pub open spec fn opt_text(s: Option<String>) -> Option<Seq<char>> {
    match s {
        Some(t) => Some(t@),
        None => None,
    }
}

/// The state after the core has handled `req` in state `m`: `initialize`
/// marks the server initialized and keeps the client's capabilities;
/// nothing else changes the state.
pub open spec fn core_after(m: CoreModel, req: CoreRequest) -> CoreModel {
    match req {
        CoreRequest::Initialize { capabilities, .. } => CoreModel {
            initialized: true,
            client_capabilities: Some(capabilities@),
            ..m
        },
        _ => m,
    }
}

/// The transport-independent server core: server information, the
/// registered tool and prompt handlers, an optional resource handler, and
/// whether the client has initialized the session.
pub struct ServerCore<T, P, R> {
    info: Implementation,
    capabilities: String,
    versions: ProtocolVersions,
    tools: Vec<(String, T)>,
    prompts: Vec<(String, P)>,
    resources: Option<R>,
    client_capabilities: Option<String>,
    initialized: bool,
}

impl<T, P, R> View for ServerCore<T, P, R> {
    type V = CoreModel;

    closed spec fn view(&self) -> CoreModel {
        CoreModel {
            info: (self.info.name@, self.info.version@),
            capabilities: self.capabilities@,
            supported: self.versions.supported@.map_values(|v: String| v@),
            default_version: self.versions.default_version@,
            tools: names_of(self.tools@),
            prompts: names_of(self.prompts@),
            has_resources: self.resources is Some,
            initialized: self.initialized,
            client_capabilities: opt_text(self.client_capabilities),
        }
    }
}

fn clone_implementation(i: &Implementation) -> (r: Implementation)
    ensures
        r.name@ == i.name@ && r.version@ == i.version@,
{
    Implementation { name: i.name.clone(), version: i.version.clone() }
}

impl<T, P, R> ServerCore<T, P, R> {
    #[verifier::type_invariant]
    closed spec fn registries_distinct(self) -> bool {
        names_distinct(names_of(self.tools@)) && names_distinct(names_of(self.prompts@))
    }

    /// The tool handler registered at `index`.
    pub closed spec fn tool_at(&self, index: int) -> T {
        self.tools@[index].1
    }

    /// The prompt handler registered at `index`.
    pub closed spec fn prompt_at(&self, index: int) -> P {
        self.prompts@[index].1
    }

    /// The resource handler.
    pub closed spec fn resource_handler(&self) -> Option<R> {
        self.resources
    }

    /// Create a core with the given information and handlers; it starts
    /// uninitialized. Tool names, and prompt names, are keys: none occurs
    /// twice.
    pub fn new(
        info: Implementation,
        capabilities: String,
        versions: ProtocolVersions,
        tools: Vec<(String, T)>,
        prompts: Vec<(String, P)>,
        resources: Option<R>,
    ) -> (c: ServerCore<T, P, R>)
        requires
            names_distinct(names_of(tools@)),
            names_distinct(names_of(prompts@)),
        ensures
            c@.info == (info.name@, info.version@),
            c@.capabilities == capabilities@,
            c@.supported == versions.supported@.map_values(|v: String| v@),
            c@.default_version == versions.default_version@,
            c@.tools == names_of(tools@),
            c@.prompts == names_of(prompts@),
            c@.has_resources == resources is Some,
            !c@.initialized,
            c@.client_capabilities is None,
            forall|i: int| 0 <= i < tools@.len() ==> c.tool_at(i) == tools@[i].1,
            forall|i: int| 0 <= i < prompts@.len() ==> c.prompt_at(i) == prompts@[i].1,
            c.resource_handler() == resources,
    {
        ServerCore {
            info,
            capabilities,
            versions,
            tools,
            prompts,
            resources,
            client_capabilities: None,
            initialized: false,
        }
    }

    /// Whether the server has been initialized.
    pub fn is_initialized(&self) -> (b: bool)
        ensures
            b == self@.initialized,
    {
        self.initialized
    }

    /// The client capabilities received with `initialize`, if any.
    pub fn get_client_capabilities(&self) -> (c: Option<String>)
        ensures
            opt_text(c) == self@.client_capabilities,
    {
        match &self.client_capabilities {
            Some(t) => Some(t.clone()),
            None => None,
        }
    }

    /// The tool handler registered at `index`.
    pub fn tool(&self, index: usize) -> (t: &T)
        requires
            index < self@.tools.len(),
        ensures
            *t == self.tool_at(index as int),
    {
        &self.tools[index].1
    }

    /// The prompt handler registered at `index`.
    pub fn prompt(&self, index: usize) -> (p: &P)
        requires
            index < self@.prompts.len(),
        ensures
            *p == self.prompt_at(index as int),
    {
        &self.prompts[index].1
    }

    /// The resource handler, if one is registered.
    pub fn resources(&self) -> (r: Option<&R>)
        ensures
            match r {
                Some(h) => self.resource_handler() == Some(*h),
                None => self.resource_handler() is None,
            },
    {
        match &self.resources {
            Some(h) => Some(h),
            None => None,
        }
    }

    fn negotiate(&self, requested: &str) -> (v: String)
        ensures
            v@ == negotiated(self@, requested@),
    {
        let mut i: usize = 0;
        while i < self.versions.supported.len()
            invariant
                i <= self.versions.supported@.len(),
                forall|j: int| 0 <= j < i ==> self.versions.supported@[j]@ != requested@,
            decreases self.versions.supported@.len() - i,
        {
            if str_eq(self.versions.supported[i].as_str(), requested) {
                proof {
                    let sup = self.versions.supported@.map_values(|v: String| v@);
                    assert(sup[i as int] == requested@);
                }
                return requested.to_owned();
            }
            i = i + 1;
        }
        proof {
            let sup = self.versions.supported@.map_values(|v: String| v@);
            assert(!sup.contains(requested@)) by {
                if sup.contains(requested@) {
                    let k = choose|k: int| 0 <= k < sup.len() && sup[k] == requested@;
                    assert(self.versions.supported@[k]@ == requested@);
                }
            }
        }
        self.versions.default_version.clone()
    }

    fn find_tool(&self, name: &str) -> (r: Option<usize>)
        ensures
            match r {
                Some(i) => first_at(self@.tools, name@, i as int),
                None => !self@.tools.contains(name@),
            },
    {
        let mut i: usize = 0;
        while i < self.tools.len()
            invariant
                i <= self.tools@.len(),
                forall|j: int| 0 <= j < i ==> self.tools@[j].0@ != name@,
            decreases self.tools@.len() - i,
        {
            if str_eq(self.tools[i].0.as_str(), name) {
                return Some(i);
            }
            i = i + 1;
        }
        proof {
            let names = names_of(self.tools@);
            assert(!names.contains(name@)) by {
                if names.contains(name@) {
                    let k = choose|k: int| 0 <= k < names.len() && names[k] == name@;
                    assert(self.tools@[k].0@ == name@);
                }
            }
        }
        None
    }

    fn find_prompt(&self, name: &str) -> (r: Option<usize>)
        ensures
            match r {
                Some(i) => first_at(self@.prompts, name@, i as int),
                None => !self@.prompts.contains(name@),
            },
    {
        let mut i: usize = 0;
        while i < self.prompts.len()
            invariant
                i <= self.prompts@.len(),
                forall|j: int| 0 <= j < i ==> self.prompts@[j].0@ != name@,
            decreases self.prompts@.len() - i,
        {
            if str_eq(self.prompts[i].0.as_str(), name) {
                return Some(i);
            }
            i = i + 1;
        }
        proof {
            let names = names_of(self.prompts@);
            assert(!names.contains(name@)) by {
                if names.contains(name@) {
                    let k = choose|k: int| 0 <= k < names.len() && names[k] == name@;
                    assert(self.prompts@[k].0@ == name@);
                }
            }
        }
        None
    }

    fn list_tools(&self) -> (list: Vec<ToolInfo>)
        ensures
            lists_tools(list@, self@.tools),
    {
        let mut list: Vec<ToolInfo> = Vec::new();
        let mut i: usize = 0;
        while i < self.tools.len()
            invariant
                i <= self.tools@.len(),
                list@.len() == i,
                forall|j: int|
                    0 <= j < i ==> (#[trigger] list@[j]).name@ == self.tools@[j].0@
                        && list@[j].description is None && list@[j].input_schema@ == "{}"@,
            decreases self.tools@.len() - i,
        {
            list.push(
                ToolInfo {
                    name: self.tools[i].0.clone(),
                    description: None,
                    input_schema: "{}".to_owned(),
                },
            );
            i = i + 1;
        }
        list
    }

    fn list_prompts(&self) -> (list: Vec<PromptInfo>)
        ensures
            lists_prompts(list@, self@.prompts),
    {
        let mut list: Vec<PromptInfo> = Vec::new();
        let mut i: usize = 0;
        while i < self.prompts.len()
            invariant
                i <= self.prompts@.len(),
                list@.len() == i,
                forall|j: int|
                    0 <= j < i ==> (#[trigger] list@[j]).name@ == self.prompts@[j].0@
                        && list@[j].description is None && list@[j].arguments is None,
            decreases self.prompts@.len() - i,
        {
            list.push(
                PromptInfo { name: self.prompts[i].0.clone(), description: None, arguments: None },
            );
            i = i + 1;
        }
        list
    }
}


/// The interface through which a transport drives a server: it hands over
/// requests and notifications, and reads the server's description.
pub trait ProtocolHandler {
    /// Decide what to do with a request.
    fn handle_request(&mut self, request: CoreRequest) -> CoreStep;

    /// Handle a notification (no response is expected).
    fn handle_notification(&mut self, method: &str) -> Result<(), Error>;

    /// Server capabilities, as JSON text.
    fn capabilities(&self) -> &String;

    /// Server name and version.
    fn info(&self) -> &Implementation;
}

impl<T, P, R> ProtocolHandler for ServerCore<T, P, R> {
    /// Answer `initialize` (recording the client's capabilities), refuse what
    /// the routing refuses, list tools and prompts, and hand tool calls,
    /// prompt requests and resource requests to their handlers.
    fn handle_request(&mut self, request: CoreRequest) -> (s: CoreStep)
        ensures
            core_step(old(self)@, request, s),
            final(self)@ == core_after(old(self)@, request),
            forall|i: int| 0 <= i < old(self)@.tools.len() ==> final(self).tool_at(i) == old(self).tool_at(i),
            forall|i: int|
                0 <= i < old(self)@.prompts.len() ==> final(self).prompt_at(i) == old(self).prompt_at(i),
            final(self).resource_handler() == old(self).resource_handler(),
    {
        proof {
            use_type_invariant(&*self);
        }
        let kind = request.kind();
        match route_request(self.initialized, kind) {
            Route::Reject { code, message } => CoreStep::Fail(JSONRPCError { code, message, data: None }),
            Route::Handle(_) => match request {
                CoreRequest::Initialize { protocol_version, capabilities } => {
                    let v = self.negotiate(protocol_version.as_str());
                    self.client_capabilities = Some(capabilities);
                    self.initialized = true;
                    CoreStep::Reply(
                        CoreResult::Initialized {
                            protocol_version: v,
                            capabilities: self.capabilities.clone(),
                            server_info: clone_implementation(&self.info),
                        },
                    )
                },
                CoreRequest::ListTools => CoreStep::Reply(CoreResult::Tools(self.list_tools())),
                CoreRequest::CallTool { name, arguments } => match self.find_tool(name.as_str()) {
                    Some(index) => CoreStep::CallTool {
                        index,
                        request_id: tool_request_id(name.as_str()),
                        arguments,
                    },
                    None => {
                        let e = tool_not_found(name.as_str());
                        CoreStep::Fail(JSONRPCError { code: -32603, message: e.to_string(), data: None })
                    },
                },
                CoreRequest::ListPrompts => CoreStep::Reply(CoreResult::Prompts(self.list_prompts())),
                CoreRequest::GetPrompt { name, arguments } => match self.find_prompt(name.as_str()) {
                    Some(index) => CoreStep::GetPrompt {
                        index,
                        request_id: prompt_request_id(name.as_str()),
                        arguments,
                    },
                    None => {
                        let e = prompt_not_found(name.as_str());
                        CoreStep::Fail(JSONRPCError { code: -32603, message: e.to_string(), data: None })
                    },
                },
                CoreRequest::ListResources { cursor } => {
                    if self.resources.is_some() {
                        CoreStep::ListResources { request_id: "list_resources".to_owned(), cursor }
                    } else {
                        CoreStep::Reply(CoreResult::Resources(Vec::new()))
                    }
                },
                CoreRequest::ReadResource { uri } => {
                    if self.resources.is_some() {
                        CoreStep::ReadResource { request_id: read_request_id(uri.as_str()), uri }
                    } else {
                        let e = resource_handler_missing(uri.as_str());
                        CoreStep::Fail(JSONRPCError { code: -32603, message: e.to_string(), data: None })
                    }
                },
                CoreRequest::ListResourceTemplates => CoreStep::Reply(CoreResult::ResourceTemplates),
                CoreRequest::OtherClient => CoreStep::Fail(
                    JSONRPCError { code: -32601, message: "Method not supported".to_owned(), data: None },
                ),
                CoreRequest::Server => CoreStep::Fail(
                    JSONRPCError { code: -32601, message: "Method not supported".to_owned(), data: None },
                ),
            },
        }
    }

    /// Notifications from the client need no action.
    fn handle_notification(&mut self, method: &str) -> (r: Result<(), Error>)
        ensures
            r is Ok,
            final(self)@ == old(self)@,
            forall|i: int| 0 <= i < old(self)@.tools.len() ==> final(self).tool_at(i) == old(self).tool_at(i),
            forall|i: int|
                0 <= i < old(self)@.prompts.len() ==> final(self).prompt_at(i) == old(self).prompt_at(i),
            final(self).resource_handler() == old(self).resource_handler(),
    {
        Ok(())
    }

    /// Server capabilities, as JSON text.
    fn capabilities(&self) -> (c: &String)
        ensures
            c@ == self@.capabilities,
    {
        &self.capabilities
    }

    /// Server name and version.
    fn info(&self) -> (i: &Implementation)
        ensures
            (i.name@, i.version@) == self@.info,
    {
        &self.info
    }
}

/// The outcome of a tool handler as the core answers it: the result's
/// pretty-printed JSON text as one text item, or the handler's error as an
/// internal error (-32603) carrying the error's text.
pub fn finish_tool_call(outcome: Result<String, Error>) -> (r: Result<CoreResult, JSONRPCError>)
    ensures
        match outcome {
            Ok(text) => r matches Ok(CoreResult::ToolCalled { text: t }) && t@ == text@,
            Err(e) => r matches Err(o) && o.code == -32603 && o.message@ == error_text(e) && o.data is None,
        },
{
    match outcome {
        Ok(text) => Ok(CoreResult::ToolCalled { text }),
        Err(e) => Err(JSONRPCError { code: -32603, message: e.to_string(), data: None }),
    }
}

/// Before `initialize`, the core answers every other request with an error
/// and leaves its state as it was.
pub proof fn lemma_core_uninitialized_refuses(m: CoreModel, req: CoreRequest, s: CoreStep)
    requires
        !m.initialized,
        !(req is Initialize),
        core_step(m, req, s),
    ensures
        s is Fail,
        core_after(m, req) == m,
{
}

/// Once `initialize` has been handled, `tools/list` lists exactly the
/// registered tools, and `tools/call` of a registered tool goes to that
/// tool's handler.
pub proof fn lemma_initialize_then_tools(
    m: CoreModel,
    protocol_version: String,
    capabilities: String,
    listed: CoreStep,
    name: String,
    arguments: String,
    called: CoreStep,
)
    requires
        core_step(
            core_after(m, CoreRequest::Initialize { protocol_version, capabilities }),
            CoreRequest::ListTools,
            listed,
        ),
        core_step(
            core_after(m, CoreRequest::Initialize { protocol_version, capabilities }),
            CoreRequest::CallTool { name, arguments },
            called,
        ),
        m.tools.contains(name@),
    ensures
        listed matches CoreStep::Reply(CoreResult::Tools(list)) && lists_tools(list@, m.tools),
        called matches CoreStep::CallTool { index, .. } && m.tools[index as int] == name@,
{
}


/// The method table of client requests: each of the eight MCP method names
/// names its own kind of request, and every other name is some other
/// client request.
pub proof fn lemma_method_table(method: Seq<char>)
    ensures
        method_kind("initialize"@) == RequestKind::Initialize,
        method_kind("tools/list"@) == RequestKind::ListTools,
        method_kind("tools/call"@) == RequestKind::CallTool,
        method_kind("prompts/list"@) == RequestKind::ListPrompts,
        method_kind("prompts/get"@) == RequestKind::GetPrompt,
        method_kind("resources/list"@) == RequestKind::ListResources,
        method_kind("resources/read"@) == RequestKind::ReadResource,
        method_kind("resources/templates/list"@) == RequestKind::ListResourceTemplates,
        method != "initialize"@ && method != "tools/list"@ && method != "tools/call"@ && method
            != "prompts/list"@ && method != "prompts/get"@ && method != "resources/list"@ && method
            != "resources/read"@ && method != "resources/templates/list"@ ==> method_kind(method)
            == RequestKind::OtherClient,
{
    reveal_strlit("initialize");
    reveal_strlit("tools/list");
    reveal_strlit("tools/call");
    reveal_strlit("prompts/list");
    reveal_strlit("prompts/get");
    reveal_strlit("resources/list");
    reveal_strlit("resources/read");
    reveal_strlit("resources/templates/list");
    assert("initialize"@ != "tools/list"@) by { assert("initialize"@[0] != "tools/list"@[0]); }
    assert("initialize"@ != "tools/call"@) by { assert("initialize"@[0] != "tools/call"@[0]); }
    assert("initialize"@ != "prompts/list"@) by { assert("initialize"@.len() != "prompts/list"@.len()); }
    assert("initialize"@ != "prompts/get"@) by { assert("initialize"@.len() != "prompts/get"@.len()); }
    assert("initialize"@ != "resources/list"@) by { assert("initialize"@.len() != "resources/list"@.len()); }
    assert("initialize"@ != "resources/read"@) by { assert("initialize"@.len() != "resources/read"@.len()); }
    assert("initialize"@ != "resources/templates/list"@) by { assert("initialize"@.len() != "resources/templates/list"@.len()); }
    assert("tools/list"@ != "tools/call"@) by { assert("tools/list"@[6] != "tools/call"@[6]); }
    assert("tools/list"@ != "prompts/list"@) by { assert("tools/list"@.len() != "prompts/list"@.len()); }
    assert("tools/list"@ != "prompts/get"@) by { assert("tools/list"@.len() != "prompts/get"@.len()); }
    assert("tools/list"@ != "resources/list"@) by { assert("tools/list"@.len() != "resources/list"@.len()); }
    assert("tools/list"@ != "resources/read"@) by { assert("tools/list"@.len() != "resources/read"@.len()); }
    assert("tools/list"@ != "resources/templates/list"@) by { assert("tools/list"@.len() != "resources/templates/list"@.len()); }
    assert("tools/call"@ != "prompts/list"@) by { assert("tools/call"@.len() != "prompts/list"@.len()); }
    assert("tools/call"@ != "prompts/get"@) by { assert("tools/call"@.len() != "prompts/get"@.len()); }
    assert("tools/call"@ != "resources/list"@) by { assert("tools/call"@.len() != "resources/list"@.len()); }
    assert("tools/call"@ != "resources/read"@) by { assert("tools/call"@.len() != "resources/read"@.len()); }
    assert("tools/call"@ != "resources/templates/list"@) by { assert("tools/call"@.len() != "resources/templates/list"@.len()); }
    assert("prompts/list"@ != "prompts/get"@) by { assert("prompts/list"@.len() != "prompts/get"@.len()); }
    assert("prompts/list"@ != "resources/list"@) by { assert("prompts/list"@.len() != "resources/list"@.len()); }
    assert("prompts/list"@ != "resources/read"@) by { assert("prompts/list"@.len() != "resources/read"@.len()); }
    assert("prompts/list"@ != "resources/templates/list"@) by { assert("prompts/list"@.len() != "resources/templates/list"@.len()); }
    assert("prompts/get"@ != "resources/list"@) by { assert("prompts/get"@.len() != "resources/list"@.len()); }
    assert("prompts/get"@ != "resources/read"@) by { assert("prompts/get"@.len() != "resources/read"@.len()); }
    assert("prompts/get"@ != "resources/templates/list"@) by { assert("prompts/get"@.len() != "resources/templates/list"@.len()); }
    assert("resources/list"@ != "resources/read"@) by { assert("resources/list"@[10] != "resources/read"@[10]); }
    assert("resources/list"@ != "resources/templates/list"@) by { assert("resources/list"@.len() != "resources/templates/list"@.len()); }
    assert("resources/read"@ != "resources/templates/list"@) by { assert("resources/read"@.len() != "resources/templates/list"@.len()); }
}

} // verus!
