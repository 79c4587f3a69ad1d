use pmcp::wasi::{response_body, wasi_step, RequestId, WasiAction, WasiRequest};
use pmcp::error::Error;
use pmcp::server::server_core::{
    finish_tool_call, CoreRequest, CoreResult, CoreStep, Implementation, ProtocolHandler,
    ProtocolVersions, ServerCore,
};
use pmcp::server::server_core::{
    handler_payload, prompt_request_id, read_request_id, resource_handler_missing,
    route_request, tool_not_found, tool_request_id, Payload, RequestKind, Route,
};
use pmcp::shared::cancellation::{CancellationToken, RequestHandlerExtra};
use pmcp::wasi::{parse_error_body, route_method, RequestHandlerWasiRunner, WasiMethod};

#[test]
fn routing_before_and_after_initialize() {
    assert_eq!(route_request(false, RequestKind::Initialize), Route::Handle(RequestKind::Initialize));
    assert_eq!(
        route_request(false, RequestKind::ListTools),
        Route::Reject { code: -32002, message: "Server not initialized. Call initialize first.".to_string() }
    );
    assert_eq!(route_request(true, RequestKind::ListTools), Route::Handle(RequestKind::ListTools));
    assert_eq!(
        route_request(true, RequestKind::OtherClient),
        Route::Reject { code: -32601, message: "Method not supported".to_string() }
    );
    assert_eq!(
        route_request(false, RequestKind::Server),
        Route::Reject { code: -32601, message: "Method not supported".to_string() }
    );
}

#[test]
fn handler_outcomes() {
    assert_eq!(handler_payload(Ok("{}".to_string())), Payload::Result("{}".to_string()));
    match handler_payload(Err(tool_not_found("calc"))) {
        Payload::Error(e) => {
            assert_eq!(e.code, -32603);
            assert_eq!(e.message, "Internal error: Tool 'calc' not found");
        },
        _ => panic!("expected an error"),
    }
    assert_eq!(tool_request_id("calc"), "tool_calc");
    assert_eq!(prompt_request_id("p"), "prompt_p");
    assert_eq!(read_request_id("file:///a"), "read_file:///a");
    assert!(matches!(resource_handler_missing("u"), Error::Internal(m) if m == "Resource handler not available for 'u'"));
}

#[test]
fn wasi_routing_and_bodies() {
    assert_eq!(route_method(Some("tools/list")).unwrap(), WasiMethod::ListTools);
    assert_eq!(route_method(Some("tools/call")).unwrap(), WasiMethod::CallTool);
    match route_method(None) {
        Err(Error::Protocol { code, message, .. }) => {
            assert_eq!(code.as_i32(), -32601);
            assert_eq!(message, "Method not found: ");
        },
        _ => panic!("expected method not found"),
    }
    let body = parse_error_body("expected value");
    let v: serde_json::Value = serde_json::from_str(&body).unwrap();
    assert_eq!(v["jsonrpc"], "2.0");
    assert_eq!(v["error"]["code"], -32700);
    assert_eq!(v["error"]["message"], "Parse error: expected value");
    assert!(v["id"].is_null());
    let runner = RequestHandlerWasiRunner::new(5u32);
    assert_eq!(*runner.handler(), 5);
}

#[test]
fn cancellation_is_shared_by_clones() {
    let token = CancellationToken::new();
    let extra = RequestHandlerExtra::new("req-1".to_string(), token.clone())
        .with_session_id(Some("s".to_string()));
    assert!(!extra.is_cancelled());
    token.cancel();
    assert!(extra.is_cancelled());
    assert_eq!(extra.request_id, "req-1");
    assert_eq!(extra.session_id, Some("s".to_string()));
    assert!(extra.auth_context().is_none());
}


fn test_server(tools: Vec<(String, u32)>, resources: Option<u32>) -> ServerCore<u32, u32, u32> {
    ServerCore::new(
        Implementation { name: "test-server".to_string(), version: "1.0.0".to_string() },
        "{\"tools\":{}}".to_string(),
        ProtocolVersions {
            supported: vec!["2025-06-18".to_string(), "2024-11-05".to_string()],
            default_version: "2025-06-18".to_string(),
        },
        tools,
        vec![("greet".to_string(), 9)],
        resources,
    )
}

fn initialize(version: &str) -> CoreRequest {
    CoreRequest::Initialize { protocol_version: version.to_string(), capabilities: "{}".to_string() }
}

#[test]
fn test_server_core_initialization() {
    let mut server = test_server(vec![("test-tool".to_string(), 1)], None);
    assert!(!server.is_initialized());
    assert_eq!(server.get_client_capabilities(), None);
    match server.handle_request(initialize("2025-06-18")) {
        CoreStep::Reply(CoreResult::Initialized { protocol_version, capabilities, server_info }) => {
            assert!(server.is_initialized());
            assert_eq!(protocol_version, "2025-06-18");
            assert_eq!(capabilities, "{\"tools\":{}}");
            assert_eq!(server_info, Implementation { name: "test-server".to_string(), version: "1.0.0".to_string() });
        },
        other => panic!("Initialization failed: {:?}", other),
    }
    assert_eq!(server.get_client_capabilities(), Some("{}".to_string()));
}

#[test]
fn test_server_core_list_tools() {
    let mut server = test_server(vec![("test-tool".to_string(), 1)], None);
    server.handle_request(initialize("2025-06-18"));
    match server.handle_request(CoreRequest::ListTools) {
        CoreStep::Reply(CoreResult::Tools(tools)) => {
            assert_eq!(tools.len(), 1);
            assert_eq!(tools[0].name, "test-tool");
            assert_eq!(tools[0].description, None);
            assert_eq!(tools[0].input_schema, "{}");
        },
        other => panic!("List tools failed: {:?}", other),
    }
}

#[test]
fn core_refuses_before_initialize() {
    let mut server = test_server(vec![("test-tool".to_string(), 1)], None);
    match server.handle_request(CoreRequest::ListTools) {
        CoreStep::Fail(e) => {
            assert_eq!(e.code, -32002);
            assert!(e.message.contains("not initialized"));
        },
        other => panic!("expected an error: {:?}", other),
    }
    assert!(!server.is_initialized());
    match server.handle_request(CoreRequest::Server) {
        CoreStep::Fail(e) => assert_eq!((e.code, e.message.as_str()), (-32601, "Method not supported")),
        other => panic!("expected an error: {:?}", other),
    }
}

#[test]
fn core_negotiates_version() {
    let mut server = test_server(vec![], None);
    match server.handle_request(initialize("2024-11-05")) {
        CoreStep::Reply(CoreResult::Initialized { protocol_version, .. }) => assert_eq!(protocol_version, "2024-11-05"),
        other => panic!("{:?}", other),
    }
    match server.handle_request(initialize("1999-01-01")) {
        CoreStep::Reply(CoreResult::Initialized { protocol_version, .. }) => assert_eq!(protocol_version, "2025-06-18"),
        other => panic!("{:?}", other),
    }
}

#[test]
fn core_dispatches_to_handlers() {
    let mut server = test_server(vec![("a".to_string(), 10), ("b".to_string(), 20)], Some(30));
    server.handle_request(initialize("2025-06-18"));
    match server.handle_request(CoreRequest::CallTool { name: "b".to_string(), arguments: "{\"x\":1}".to_string() }) {
        CoreStep::CallTool { index, request_id, arguments } => {
            assert_eq!(*server.tool(index), 20);
            assert_eq!(request_id, "tool_b");
            assert_eq!(arguments, "{\"x\":1}");
        },
        other => panic!("{:?}", other),
    }
    match server.handle_request(CoreRequest::CallTool { name: "zz".to_string(), arguments: "{}".to_string() }) {
        CoreStep::Fail(e) => assert_eq!((e.code, e.message.as_str()), (-32603, "Internal error: Tool 'zz' not found")),
        other => panic!("{:?}", other),
    }
    match server.handle_request(CoreRequest::GetPrompt { name: "greet".to_string(), arguments: "{}".to_string() }) {
        CoreStep::GetPrompt { index, request_id, .. } => {
            assert_eq!(*server.prompt(index), 9);
            assert_eq!(request_id, "prompt_greet");
        },
        other => panic!("{:?}", other),
    }
    match server.handle_request(CoreRequest::ListPrompts) {
        CoreStep::Reply(CoreResult::Prompts(list)) => {
            assert_eq!(list.len(), 1);
            assert_eq!(list[0].name, "greet");
        },
        other => panic!("{:?}", other),
    }
    match server.handle_request(CoreRequest::ReadResource { uri: "file:///x".to_string() }) {
        CoreStep::ReadResource { request_id, uri } => {
            assert_eq!(request_id, "read_file:///x");
            assert_eq!(uri, "file:///x");
        },
        other => panic!("{:?}", other),
    }
    match server.handle_request(CoreRequest::ListResources { cursor: Some("c".to_string()) }) {
        CoreStep::ListResources { request_id, cursor } => {
            assert_eq!(request_id, "list_resources");
            assert_eq!(cursor, Some("c".to_string()));
        },
        other => panic!("{:?}", other),
    }
    assert_eq!(server.resources(), Some(&30));
    assert!(matches!(server.handle_request(CoreRequest::ListResourceTemplates), CoreStep::Reply(CoreResult::ResourceTemplates)));
    assert!(server.handle_notification("notifications/initialized").is_ok());
}

#[test]
fn core_without_resource_handler() {
    let mut server = test_server(vec![], None);
    server.handle_request(initialize("2025-06-18"));
    match server.handle_request(CoreRequest::ListResources { cursor: None }) {
        CoreStep::Reply(CoreResult::Resources(list)) => assert!(list.is_empty()),
        other => panic!("{:?}", other),
    }
    match server.handle_request(CoreRequest::ReadResource { uri: "u".to_string() }) {
        CoreStep::Fail(e) => assert_eq!(e.message, "Internal error: Resource handler not available for 'u'"),
        other => panic!("{:?}", other),
    }
    assert_eq!(server.info().name, "test-server");
    assert_eq!(server.capabilities(), "{\"tools\":{}}");
}

#[test]
fn tool_outcomes_become_results() {
    match finish_tool_call(Ok("{\n  \"r\": 1\n}".to_string())) {
        Ok(CoreResult::ToolCalled { text }) => assert_eq!(text, "{\n  \"r\": 1\n}"),
        other => panic!("{:?}", other),
    }
    match finish_tool_call(Err(Error::validation("Test error"))) {
        Err(e) => {
            assert_eq!(e.code, -32603);
            assert_eq!(e.message, "Validation error: Test error");
        },
        other => panic!("{:?}", other),
    }
}

#[test]
fn wasi_runner_answers_bodies() {
    let runner = RequestHandlerWasiRunner::new(());
    match runner.run(b"{\"jsonrpc\":\"2.0\",\"id\":7,\"method\":\"tools/list\",\"params\":{\"cursor\":null}}", "fresh".to_string()) {
        WasiAction::Dispatch { id, method, params } => {
            assert_eq!(id, RequestId::Number(7));
            assert_eq!(method, WasiMethod::ListTools);
            let p: serde_json::Value = serde_json::from_str(&params).unwrap();
            assert!(p["cursor"].is_null());
        },
        other => panic!("{:?}", other),
    }
    match runner.run(b"{\"method\":\"tools/call\"}", "fresh".to_string()) {
        WasiAction::Dispatch { id, method, params } => {
            assert_eq!(id, RequestId::String("fresh".to_string()));
            assert_eq!(method, WasiMethod::CallTool);
            assert_eq!(params, "null");
        },
        other => panic!("{:?}", other),
    }
    match runner.run(b"{\"id\":\"a\",\"method\":\"ping\"}", "fresh".to_string()) {
        WasiAction::Reply(body) => {
            assert_eq!(body, "{\"jsonrpc\":\"2.0\",\"id\":\"a\",\"error\":{\"code\":-32601,\"message\":\"Method not found: ping\"}}");
        },
        other => panic!("{:?}", other),
    }
    match runner.run(b"not json", "fresh".to_string()) {
        WasiAction::Reply(body) => {
            let v: serde_json::Value = serde_json::from_str(&body).unwrap();
            assert_eq!(v["error"]["code"], -32700);
            assert!(v["error"]["message"].as_str().unwrap().starts_with("Parse error: "));
            assert!(v["id"].is_null());
        },
        other => panic!("{:?}", other),
    }
    match wasi_step(Err("eof".to_string()), "x".to_string()) {
        WasiAction::Reply(body) => assert_eq!(body, parse_error_body("eof")),
        other => panic!("{:?}", other),
    }
    let q = WasiRequest { id: None, method: None, params: "null".to_string() };
    match wasi_step(Ok(q), "x".to_string()) {
        WasiAction::Reply(body) => assert_eq!(body, "{\"jsonrpc\":\"2.0\",\"id\":\"x\",\"error\":{\"code\":-32601,\"message\":\"Method not found: \"}}"),
        other => panic!("{:?}", other),
    }
    assert_eq!(response_body(&RequestId::Number(-2), Ok("[1]".to_string())), "{\"jsonrpc\":\"2.0\",\"id\":-2,\"result\":[1]}");
    assert_eq!(
        response_body(&RequestId::String("q\"".to_string()), Err(Error::Internal("boom".to_string()))),
        "{\"jsonrpc\":\"2.0\",\"id\":\"q\\\"\",\"error\":{\"code\":-32603,\"message\":\"Internal error: boom\"}}"
    );
}
