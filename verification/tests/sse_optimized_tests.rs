use pmcp::shared::sse_optimized::{
    after_connection, can_flush, keepalive_url, parse_sse_event, should_flush_on_push, stream_payloads,
    ConnectionState, OptimizedSseConfig, ReconnectAction,
};

#[test]
fn test_config_defaults() {
    let config = OptimizedSseConfig::default();
    assert_eq!(config.buffer_size, 100);
    assert_eq!(config.max_connections, 10);
    assert!(config.enable_pooling);
}

#[test]
fn test_sse_event_parsing() {
    let mut buffer: Vec<u8> = b"data: test message\nid: 123\n\n".to_vec();

    let event = parse_sse_event(&mut buffer).unwrap().unwrap();

    assert_eq!(event.data, "test message");
    assert_eq!(event.id, Some("123".to_string()));
}

#[test]
fn event_is_cut_from_the_buffer() {
    let mut buffer: Vec<u8> = b"event: ping\r\ndata: a\r\ndata: b\r\nretry: 250\n\ndata: next".to_vec();
    let event = parse_sse_event(&mut buffer).unwrap().unwrap();
    assert_eq!(event.event, Some("ping".to_string()));
    assert_eq!(event.data, "a\nb");
    assert_eq!(event.retry_ms, Some(250));
    assert_eq!(buffer, b"data: next".to_vec());
    // no complete event: nothing taken
    assert!(parse_sse_event(&mut buffer).unwrap().is_none());
    assert_eq!(buffer, b"data: next".to_vec());
}

#[test]
fn event_without_data_is_consumed() {
    let mut buffer: Vec<u8> = b"id: 1\n\ndata: x\n\n".to_vec();
    assert!(parse_sse_event(&mut buffer).unwrap().is_none());
    assert_eq!(buffer, b"data: x\n\n".to_vec());
}

#[test]
fn reconnect_policy() {
    assert_eq!(after_connection(3, 5, true), (0, ReconnectAction::ConnectAgain));
    assert_eq!(after_connection(0, 5, false), (1, ReconnectAction::RetryAfterDelay));
    assert_eq!(after_connection(4, 5, false), (5, ReconnectAction::GiveUp));
}

#[test]
fn flush_decisions() {
    assert!(should_flush_on_push(100, 100));
    assert!(!should_flush_on_push(99, 100));
    assert!(can_flush(ConnectionState::Connected, 1));
    assert!(!can_flush(ConnectionState::Connected, 0));
    assert!(!can_flush(ConnectionState::Reconnecting, 3));
}


#[test]
fn stream_payloads_are_the_data_lines() {
    let body = "event: message\ndata: {\"a\":1}\r\nid: 1\ndata: [2]\n\n: comment\ndata:nospace\n";
    assert_eq!(stream_payloads(body), vec!["{\"a\":1}".to_string(), "[2]".to_string()]);
    assert_eq!(stream_payloads("data: x"), vec!["x".to_string()]);
    assert_eq!(stream_payloads("data: x\r"), vec!["x\r".to_string()]);
    assert_eq!(stream_payloads("data: \n"), vec![String::new()]);
    assert!(stream_payloads("").is_empty());
    for body in ["data: a\r\ndata: b\n", "x\ndata: a\ndata: b", "data: a\n\ndata: b\r\n"] {
        let expected: Vec<String> = body.lines().filter_map(|l| l.strip_prefix("data: ")).map(String::from).collect();
        assert_eq!(stream_payloads(body), expected);
    }
}


#[test]
fn keepalive_goes_to_ping() {
    assert_eq!(keepalive_url("http://localhost:8080/sse"), "http://localhost:8080/sse/ping");
}
