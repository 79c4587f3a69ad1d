//! Decisions of the runner that serves one request at a time in a WASI host.
use vstd::prelude::*;
use std::sync::Arc;
use crate::error::{error_text, Error};
use crate::server::simple_prompt::opt_view;
use crate::server::validation::str_eq;
use crate::text::{extend_chars, int_text, json_quote, push_int_text, push_json_quoted, string_of};

verus! {

/// The methods a WASI runner serves.
#[derive(Debug, Clone, Copy, PartialEq, Eq, Structural)]
pub enum WasiMethod {
    /// `tools/list`
    ListTools,
    /// `tools/call`
    CallTool,
}

/// The text of an optional string slice.
pub open spec fn opt_str(s: Option<&str>) -> Option<Seq<char>> {
    match s {
        Some(t) => Some(t@),
        None => None,
    }
}

/// `tools/list` and `tools/call` are served; any other method, or none, is
/// not found.
pub fn route_method(method: Option<&str>) -> (r: Result<WasiMethod, Error>)
    ensures
        opt_str(method) == Some("tools/list"@) ==> r == Ok::<WasiMethod, Error>(WasiMethod::ListTools),
        opt_str(method) == Some("tools/call"@) ==> r == Ok::<WasiMethod, Error>(WasiMethod::CallTool),
        opt_str(method) != Some("tools/list"@) && opt_str(method) != Some("tools/call"@) ==> (r matches Err(
            Error::Protocol { code, message, data },
        ) && code.0 == -32601 && message@ == "Method not found: "@ + match method {
            Some(m) => m@,
            None => Seq::<char>::empty(),
        } && data is None),
{
    proof {
        reveal_strlit("tools/list");
        reveal_strlit("tools/call");
        assert("tools/list"@[6] != "tools/call"@[6]);
    }
    match method {
        Some(m) => {
            if str_eq(m, "tools/list") {
                Ok(WasiMethod::ListTools)
            } else if str_eq(m, "tools/call") {
                Ok(WasiMethod::CallTool)
            } else {
                Err(Error::method_not_found(m))
            }
        },
        None => {
            let e = Error::method_not_found("");
            proof {
                reveal_strlit("");
                assert("Method not found: "@ + ""@ == "Method not found: "@);
            }
            Err(e)
        },
    }
}

/// A JSON-RPC error response without an id.
pub open spec fn error_body_text(code: i32, message: Seq<char>) -> Seq<char> {
    "{\"jsonrpc\":\"2.0\",\"error\":{\"code\":"@ + int_text(code as int) + ",\"message\":"@
        + json_quote(message) + "},\"id\":null}"@
}

/// The body of an error response without an id.
pub fn error_body(code: i32, message: &str) -> (s: String)
    ensures
        s@ == error_body_text(code, message@),
{
    let mut v: Vec<char> = Vec::new();
    extend_chars(&mut v, "{\"jsonrpc\":\"2.0\",\"error\":{\"code\":");
    push_int_text(&mut v, code as i64);
    extend_chars(&mut v, ",\"message\":");
    push_json_quoted(&mut v, message);
    extend_chars(&mut v, "},\"id\":null}");
    string_of(v.as_slice())
}

/// The answer to a body that is not JSON.
pub fn parse_error_body(detail: &str) -> (s: String)
    ensures
        s@ == error_body_text(-32700i32, "Parse error: "@ + detail@),
{
    let mut v: Vec<char> = Vec::new();
    extend_chars(&mut v, "Parse error: ");
    extend_chars(&mut v, detail);
    let m = string_of(v.as_slice());
    error_body(-32700, m.as_str())
}

/// The answer when a response cannot be serialised.
pub fn internal_error_body(detail: &str) -> (s: String)
    ensures
        s@ == error_body_text(-32603i32, "Internal error: "@ + detail@),
{
    let mut v: Vec<char> = Vec::new();
    extend_chars(&mut v, "Internal error: ");
    extend_chars(&mut v, detail);
    let m = string_of(v.as_slice());
    error_body(-32603, m.as_str())
}


/// The id of a JSON-RPC request: a number or a string.
#[derive(Debug, Clone, PartialEq, Eq)]
pub enum RequestId {
    /// A numeric id
    Number(i64),
    /// A string id
    String(String),
}

/// The view of a request id.
pub enum RequestIdView {
    /// A numeric id
    Number(i64),
    /// A string id
    String(Seq<char>),
}

/// The view of a request id.
pub open spec fn id_view(id: RequestId) -> RequestIdView {
    match id {
        RequestId::Number(n) => RequestIdView::Number(n),
        RequestId::String(s) => RequestIdView::String(s@),
    }
}

/// What the runner reads of a request body that is JSON: the id (when it is
/// a number that fits an `i64`, or a string), the method (when it is a
/// string), and the params as JSON text (`null` when absent).
#[derive(Debug, Clone)]
pub struct WasiRequest {
    /// Request id
    pub id: Option<RequestId>,
    /// Method name
    pub method: Option<String>,
    /// Parameters, as JSON text
    pub params: String,
}

/// The view of what the runner reads of a request.
pub struct WasiRequestView {
    /// Request id
    pub id: Option<RequestIdView>,
    /// Method name
    pub method: Option<Seq<char>>,
    /// Parameters, as JSON text
    pub params: Seq<char>,
}

/// The view of what the runner reads of a request.
pub open spec fn request_view(q: WasiRequest) -> WasiRequestView {
    WasiRequestView {
        id: match q.id {
            Some(i) => Some(id_view(i)),
            None => None,
        },
        method: opt_view(q.method),
        params: q.params@,
    }
}

/// The view of a parsed body, or of the parser's error text.
pub open spec fn parsed_view(r: Result<WasiRequest, String>) -> Result<WasiRequestView, Seq<char>> {
    match r {
        Ok(q) => Ok(request_view(q)),
        Err(d) => Err(d@),
    }
}

/// What `serde_json::from_slice` makes of a request body, read as
/// `WasiRequest`, or the text of its error.
pub uninterp spec fn wasi_request_of(body: Seq<u8>) -> Result<WasiRequestView, Seq<char>>;

/// Calls `serde_json::from_slice` to read a body as a JSON value, and takes
/// the id, method and params from it as plain values; a refusal gives the
/// error's text. JSON parsing is not restated here: the result is named.
#[verifier::external_body]
fn parse_wasi_body(body: &[u8]) -> (r: Result<WasiRequest, String>)
    ensures
        parsed_view(r) == wasi_request_of(body@),
{
    match serde_json::from_slice::<serde_json::Value>(body) {
        Ok(v) => Ok(WasiRequest {
            id: match v.get("id") {
                Some(serde_json::Value::Number(n)) => n.as_i64().map(RequestId::Number),
                Some(serde_json::Value::String(s)) => Some(RequestId::String(s.clone())),
                _ => None,
            },
            method: v.get("method").and_then(|m| m.as_str()).map(|m| m.to_string()),
            params: v.get("params").cloned().unwrap_or(serde_json::Value::Null).to_string(),
        }),
        Err(e) => Err(e.to_string()),
    }
}

/// The method a name routes to, if any.
pub open spec fn wasi_method_of(method: Option<Seq<char>>) -> Option<WasiMethod> {
    if method == Some("tools/list"@) {
        Some(WasiMethod::ListTools)
    } else if method == Some("tools/call"@) {
        Some(WasiMethod::CallTool)
    } else {
        None
    }
}

/// The message of the error for an unknown or missing method.
pub open spec fn not_found_text(method: Option<Seq<char>>) -> Seq<char> {
    "Method not found: "@ + match method {
        Some(m) => m,
        None => Seq::<char>::empty(),
    }
}

/// The JSON-RPC error object of an error: a protocol error keeps its code,
/// message and data; any other error is an internal error (-32603) with the
/// error's text.
pub open spec fn jsonrpc_error_view(e: Error) -> (i32, Seq<char>, Option<Seq<char>>) {
    match e {
        Error::Protocol { code, message, data } => (code.0, message@, opt_view(data)),
        _ => (-32603i32, error_text(e), None),
    }
}

/// The text of a JSON-RPC error object.
pub open spec fn error_object_text(o: (i32, Seq<char>, Option<Seq<char>>)) -> Seq<char> {
    "{\"code\":"@ + int_text(o.0 as int) + ",\"message\":"@ + json_quote(o.1) + match o.2 {
        Some(d) => ",\"data\":"@ + d,
        None => Seq::<char>::empty(),
    } + "}"@
}

/// The text of a request id.
pub open spec fn id_text(id: RequestIdView) -> Seq<char> {
    match id {
        RequestIdView::Number(n) => int_text(n as int),
        RequestIdView::String(s) => json_quote(s),
    }
}

/// The body of a JSON-RPC response with the request's id: the result's JSON
/// text, or the error object.
pub open spec fn response_text(
    id: RequestIdView,
    outcome: Result<Seq<char>, (i32, Seq<char>, Option<Seq<char>>)>,
) -> Seq<char> {
    "{\"jsonrpc\":\"2.0\",\"id\":"@ + id_text(id) + match outcome {
        Ok(v) => ",\"result\":"@ + v,
        Err(o) => ",\"error\":"@ + error_object_text(o),
    } + "}"@
}

/// The view of a handler's outcome.
pub open spec fn outcome_view(outcome: Result<String, Error>) -> Result<
    Seq<char>,
    (i32, Seq<char>, Option<Seq<char>>),
> {
    match outcome {
        Ok(v) => Ok(v@),
        Err(e) => Err(jsonrpc_error_view(e)),
    }
}

fn push_id_text(v: &mut Vec<char>, id: &RequestId)
    ensures
        final(v)@ == old(v)@ + id_text(id_view(*id)),
{
    match id {
        RequestId::Number(n) => push_int_text(v, *n),
        RequestId::String(s) => push_json_quoted(v, s.as_str()),
    }
}

fn push_error_object(v: &mut Vec<char>, e: &Error)
    ensures
        final(v)@ == old(v)@ + error_object_text(jsonrpc_error_view(*e)),
{
    let ghost start = v@;
    extend_chars(v, "{\"code\":");
    match e {
        Error::Protocol { code, message, data } => {
            push_int_text(v, code.0 as i64);
            extend_chars(v, ",\"message\":");
            push_json_quoted(v, message.as_str());
            match data {
                Some(d) => {
                    extend_chars(v, ",\"data\":");
                    extend_chars(v, d.as_str());
                },
                None => {},
            }
        },
        _ => {
            push_int_text(v, -32603i64);
            extend_chars(v, ",\"message\":");
            let t = e.to_string();
            push_json_quoted(v, t.as_str());
        },
    }
    extend_chars(v, "}");
    proof {
        reveal_strlit("");
        let o = jsonrpc_error_view(*e);
        assert(v@ =~= start + error_object_text(o));
    }
}

/// The body of the response to a request with the given id: the handler's
/// result (as JSON text) or its error.
pub fn response_body(id: &RequestId, outcome: Result<String, Error>) -> (s: String)
    ensures
        s@ == response_text(id_view(*id), outcome_view(outcome)),
{
    let mut v: Vec<char> = Vec::new();
    extend_chars(&mut v, "{\"jsonrpc\":\"2.0\",\"id\":");
    push_id_text(&mut v, id);
    match &outcome {
        Ok(r) => {
            extend_chars(&mut v, ",\"result\":");
            extend_chars(&mut v, r.as_str());
        },
        Err(e) => {
            extend_chars(&mut v, ",\"error\":");
            push_error_object(&mut v, e);
        },
    }
    extend_chars(&mut v, "}");
    proof {
        assert(v@ =~= response_text(id_view(*id), outcome_view(outcome)));
    }
    string_of(v.as_slice())
}

/// What the runner does with a request: answer at once with a body, or
/// hand the params to the handler of a method under the request's id.
#[derive(Debug, Clone)]
pub enum WasiAction {
    /// Answer with this body
    Reply(String),
    /// Run the handler of `method`
    Dispatch {
        /// The request's id
        id: RequestId,
        /// The method to run
        method: WasiMethod,
        /// Parameters, as JSON text
        params: String,
    },
}

/// The view of an action.
pub enum WasiActionView {
    /// Answer with this body
    Reply(Seq<char>),
    /// Run the handler of a method with an id and params
    Dispatch(RequestIdView, WasiMethod, Seq<char>),
}

/// The view of an action.
pub open spec fn action_view(a: WasiAction) -> WasiActionView {
    match a {
        WasiAction::Reply(b) => WasiActionView::Reply(b@),
        WasiAction::Dispatch { id, method, params } => WasiActionView::Dispatch(id_view(id), method, params@),
    }
}

/// What the runner does with a parsed body: a body that is not JSON is
/// answered with a parse error (-32700) without an id; a request without a
/// usable id gets the fallback id; `tools/list` and `tools/call` go to the
/// handler, and any other method, or none, is answered with a method-not-found
/// error (-32601) carrying the id.
pub open spec fn wasi_action_spec(
    parsed: Result<WasiRequestView, Seq<char>>,
    fallback_id: Seq<char>,
) -> WasiActionView {
    match parsed {
        Err(d) => WasiActionView::Reply(error_body_text(-32700i32, "Parse error: "@ + d)),
        Ok(q) => {
            let id = match q.id {
                Some(i) => i,
                None => RequestIdView::String(fallback_id),
            };
            match wasi_method_of(q.method) {
                Some(m) => WasiActionView::Dispatch(id, m, q.params),
                None => WasiActionView::Reply(
                    response_text(id, Err((-32601i32, not_found_text(q.method), None))),
                ),
            }
        },
    }
}

/// Decide what to do with a parsed body; `fallback_id` is the id for a
/// request that carries none.
pub fn wasi_step(parsed: Result<WasiRequest, String>, fallback_id: String) -> (a: WasiAction)
    ensures
        action_view(a) == wasi_action_spec(parsed_view(parsed), fallback_id@),
{
    proof {
        reveal_strlit("tools/list");
        reveal_strlit("tools/call");
        reveal_strlit("");
        assert("tools/list"@[6] != "tools/call"@[6]);
    }
    match parsed {
        Err(d) => WasiAction::Reply(parse_error_body(d.as_str())),
        Ok(q) => {
            let id = match q.id {
                Some(i) => i,
                None => RequestId::String(fallback_id),
            };
            let method: Option<&str> = match &q.method {
                Some(m) => Some(m.as_str()),
                None => None,
            };
            match route_method(method) {
                Ok(m) => WasiAction::Dispatch { id, method: m, params: q.params },
                Err(e) => {
                    proof {
                        assert("Method not found: "@ + ""@ =~= "Method not found: "@);
                    }
                    WasiAction::Reply(response_body(&id, Err(e)))
                },
            }
        },
    }
}

/// A runner for a request handler in a WASI environment.
#[derive(Debug)]
pub struct RequestHandlerWasiRunner<H> {
    handler: Arc<H>,
}

impl<H> RequestHandlerWasiRunner<H> {
    /// The handler.
    pub closed spec fn handler_value(&self) -> H {
        *self.handler
    }

    /// Create a new WASI runner with the given request handler.
    pub fn new(handler: H) -> (r: RequestHandlerWasiRunner<H>)
        ensures
            r.handler_value() == handler,
    {
        RequestHandlerWasiRunner { handler: Arc::new(handler) }
    }

    /// The handler.
    pub fn handler(&self) -> (h: &H)
        ensures
            *h == self.handler_value(),
    {
        &*self.handler
    }

    /// Read a raw request body and decide what to do with it (see
    /// `wasi_step`); `fallback_id` is the id for a request that carries none.
    pub fn run(&self, request_body: &[u8], fallback_id: String) -> (a: WasiAction)
        ensures
            action_view(a) == wasi_action_spec(wasi_request_of(request_body@), fallback_id@),
    {
        wasi_step(parse_wasi_body(request_body), fallback_id)
    }
}

} // verus!
