use pmcp::error::Error;
use pmcp::server::simple_tool::{default_input_schema, invalid_tool_arguments, SimpleTool, SyncTool};
use pmcp::server::transport::websocket_enhanced::{
    admit_connection, check_broadcast, client_not_found, stale_after_ns, ClientTable, EnhancedWebSocketConfig,
};
use pmcp::shared::wasm_http::{http_error, WasmHttpClient, WasmHttpConfig, WasmHttpTransport};

#[test]
fn websocket_config_defaults() {
    let c = EnhancedWebSocketConfig::default();
    assert_eq!(c.bind_addr, "127.0.0.1:9001");
    assert_eq!(c.max_connections, 100);
    assert_eq!(c.max_frame_size, Some(64 * 1024 * 1024));
    assert!(c.enable_pooling);
    assert!(!c.enable_broadcast);
}

#[test]
fn websocket_admission_and_errors() {
    assert!(admit_connection(99, 100));
    assert!(!admit_connection(100, 100));
    let mut c = EnhancedWebSocketConfig::default();
    assert!(matches!(check_broadcast(&c), Err(Error::Internal(m)) if m == "Broadcast mode not enabled"));
    c.enable_broadcast = true;
    assert!(check_broadcast(&c).is_ok());
    assert!(matches!(client_not_found("abc"), Error::Internal(m) if m == "Client abc not found"));
}

#[test]
fn client_table_heartbeats() {
    let mut t = ClientTable::new();
    t.register(1, 0);
    t.register(2, 1_000);
    t.register(3, 50_000);
    t.touch(1, 40_000);
    t.touch(9, 40_000);
    assert_eq!(t.len(), 3);
    assert!(!t.contains(9));
    let removed = t.remove_stale(99_000, 60_000);
    assert_eq!(removed, vec![2]);
    assert_eq!(t.ids(), vec![1, 3]);
    t.remove(1);
    assert_eq!(t.ids(), vec![3]);
    t.register(3, 200_000);
    assert_eq!(t.len(), 1);
    t.clear();
    assert_eq!(t.len(), 0);
}

#[test]
fn simple_tools() {
    let tool = SimpleTool::new("echo".to_string(), |x: i32| x)
        .with_description("Echo".to_string());
    let info = tool.metadata().unwrap();
    assert_eq!(info.name, "echo");
    assert_eq!(info.description, Some("Echo".to_string()));
    let schema: serde_json::Value = serde_json::from_str(&info.input_schema).unwrap();
    assert_eq!(schema["type"], "object");
    assert_eq!(schema["additionalProperties"], true);
    assert_eq!((tool.handler())(4), 4);
    let sync = SyncTool::new("s".to_string(), ()).with_schema("{\"type\":\"string\"}".to_string());
    assert_eq!(sync.metadata().unwrap().input_schema, "{\"type\":\"string\"}");
    assert_eq!(default_input_schema(), "{\"additionalProperties\":true,\"properties\":{},\"type\":\"object\"}");
    assert!(matches!(invalid_tool_arguments("t", "missing field"), Error::Validation(m) if m == "Invalid arguments for tool 't': missing field"));
}

#[test]
fn http_session_headers() {
    let config = WasmHttpConfig {
        url: "https://api.example.com/mcp".to_string(),
        extra_headers: vec![("X-Key".to_string(), "k".to_string())],
    };
    let mut t = WasmHttpTransport::new(config.clone());
    assert_eq!(t.session_id(), None);
    assert_eq!(
        t.request_headers(),
        vec![
            ("Content-Type".to_string(), "application/json".to_string()),
            ("Accept".to_string(), "application/json".to_string()),
            ("X-Key".to_string(), "k".to_string()),
        ]
    );
    t.absorb_response(Some("sess-1".to_string()), None);
    t.set_protocol_version(Some("2025-06-18".to_string()));
    assert_eq!(t.session_id(), Some("sess-1".to_string()));
    let h = t.request_headers();
    assert_eq!(h[2], ("mcp-session-id".to_string(), "sess-1".to_string()));
    assert_eq!(h[3], ("mcp-protocol-version".to_string(), "2025-06-18".to_string()));
    assert_eq!(t.url(), "https://api.example.com/mcp");
    let client = WasmHttpClient::new(config);
    assert_eq!(client.protocol_version(), None);
    assert!(matches!(http_error(503, None), Error::Internal(m) if m == "HTTP error 503: Unknown error"));
    assert!(matches!(http_error(404, Some("gone".to_string())), Error::Internal(m) if m == "HTTP error 404: gone"));
}

#[test]
fn test_default_schema() {
    let tool = SyncTool::new("default_tool".to_string(), |_args: serde_json::Value| serde_json::Value::Null);
    let metadata = tool.metadata().unwrap();
    assert_eq!(metadata.name, "default_tool");
    assert_eq!(metadata.description, None);
    let schema: serde_json::Value = serde_json::from_str(&metadata.input_schema).unwrap();
    assert_eq!(schema["type"], "object");
    assert_eq!(schema["additionalProperties"], true);
}

#[test]
fn test_tool_info_structure() {
    let tool = SyncTool::new("info_test".to_string(), |_args: serde_json::Value| serde_json::Value::Null)
        .with_description("Tool for testing ToolInfo structure".to_string())
        .with_schema(
            "{\"type\":\"object\",\"properties\":{\"param1\":{\"type\":\"string\",\"enum\":[\"option1\",\"option2\"]},\
             \"param2\":{\"type\":\"number\",\"minimum\":0,\"maximum\":100}},\"required\":[\"param1\"]}"
                .to_string(),
        );
    let info = tool.metadata().unwrap();
    assert_eq!(info.name, "info_test");
    assert!(info.description.is_some());
    let schema: serde_json::Value = serde_json::from_str(&info.input_schema).unwrap();
    assert_eq!(schema["type"], "object");
    assert!(schema["properties"]["param1"]["enum"].is_array());
    assert_eq!(schema["properties"]["param2"]["minimum"], 0);
    assert_eq!(schema["required"][0], "param1");
}


#[test]
fn heartbeat_sweep_uses_one_minute() {
    let mut t = ClientTable::new();
    t.register(1, 0);
    t.register(2, 30_000_000_000);
    assert_eq!(stale_after_ns(), 60_000_000_000);
    assert!(t.check_heartbeats(60_000_000_000).is_empty());
    assert_eq!(t.check_heartbeats(60_000_000_001), vec![1]);
    assert!(t.contains(2));
    assert!(!t.contains(1));
}
