use pmcp::error::Error;
use pmcp::shared::simd_parsing::{
    parse_single_event, parse_u64, CpuFeatures, SimdBase64, SimdHttpHeaderParser, SimdJsonParser,
    SimdSseParser,
};

fn all_features() -> CpuFeatures {
    CpuFeatures { avx2: true, sse42: true, ssse3: true }
}

fn no_features() -> CpuFeatures {
    CpuFeatures { avx2: false, sse42: false, ssse3: false }
}

#[test]
fn simd_parsing_test_simd_sse_parser() {
    let mut parser = SimdSseParser::new(all_features());
    let sse_data = "event: message\ndata: hello world\nid: 123\n\n";

    let events = parser.parse_chunk(sse_data.as_bytes()).unwrap();
    assert_eq!(events.len(), 1);
    assert_eq!(events[0].data, "hello world");
    assert_eq!(events[0].event, Some("message".to_string()));
    assert_eq!(events[0].id, Some("123".to_string()));
}

#[test]
fn test_simd_base64() {
    let codec = SimdBase64::new();
    let data = b"Hello, SIMD World!";

    let encoded = codec.encode(data);
    let decoded = codec.decode(&encoded).unwrap();

    assert_eq!(decoded, data);
}

#[test]
fn test_simd_http_headers() {
    let parser = SimdHttpHeaderParser::new();
    let headers = "Content-Type: application/json\r\nContent-Length: 123\r\n\r\n";

    let parsed = parser.parse_headers(headers.as_bytes()).unwrap();
    assert_eq!(
        parsed.get("content-type"),
        Some(&"application/json".to_string())
    );
    assert_eq!(parsed.get("content-length"), Some(&"123".to_string()));
}

#[test]
fn test_json_structure_validation() {
    let parser = SimdJsonParser::new(all_features());

    // Valid JSON
    assert!(parser.validate_json_structure(b"{\"key\":\"value\"}"));

    // Invalid JSON - unbalanced braces
    assert!(!parser.validate_json_structure(b"{\"key\":\"value\""));
    assert!(!parser.validate_json_structure(b"\"key\":\"value\"}"));

    // Empty
    assert!(!parser.validate_json_structure(b""));
}

#[test]
fn simd_parsing_tests_test_simd_sse_parser() {
    let mut parser = SimdSseParser::new(all_features());

    let sse_data = b"event: message\ndata: Hello World\nid: 123\n\n";
    let events = parser.parse_chunk(sse_data).unwrap();

    assert_eq!(events.len(), 1);
    let event = &events[0];
    assert_eq!(event.event.as_ref().unwrap(), "message");
    assert_eq!(event.data, "Hello World");
    assert_eq!(event.id.as_ref().unwrap(), "123");
}

#[test]
fn test_simd_sse_parser_multiple_events() {
    let mut parser = SimdSseParser::new(all_features());

    let sse_data =
        b"event: update\ndata: Event 1\n\nevent: notification\ndata: Event 2\nid: 456\n\n";
    let events = parser.parse_chunk(sse_data).unwrap();

    assert_eq!(events.len(), 2);
    assert_eq!(events[0].event.as_ref().unwrap(), "update");
    assert_eq!(events[0].data, "Event 1");
    assert_eq!(events[1].event.as_ref().unwrap(), "notification");
    assert_eq!(events[1].data, "Event 2");
    assert_eq!(events[1].id.as_ref().unwrap(), "456");
}

#[test]
fn test_simd_base64_basic() {
    let encoder = SimdBase64::new();
    let test_data = b"Hello, SIMD Base64!";

    let encoded_data = encoder.encode(test_data);
    let decoded = encoder.decode(&encoded_data).unwrap();

    assert_eq!(decoded, test_data);
}

#[test]
fn test_simd_base64_large_data() {
    let encoder = SimdBase64::new();
    let test_data = vec![42u8; 1024];

    let encoded_data = encoder.encode(&test_data);
    let decoded = encoder.decode(&encoded_data).unwrap();

    assert_eq!(decoded, test_data);
}

#[test]
fn test_simd_http_header_parser() {
    let parser = SimdHttpHeaderParser::new();
    let headers = "Content-Type: application/json\r\nContent-Length: 123\r\n\r\n";

    let parsed = parser.parse_headers(headers.as_bytes()).unwrap();
    assert_eq!(
        parsed.get("content-type"),
        Some(&"application/json".to_string())
    );
    assert_eq!(parsed.get("content-length"), Some(&"123".to_string()));
}

#[test]
fn test_base64_edge_cases() {
    let encoder = SimdBase64::new();

    let encoded_data = encoder.encode(b"");
    let decoded = encoder.decode(&encoded_data).unwrap();
    assert_eq!(decoded, b"");

    let single_byte = b"A";
    let encoded_data = encoder.encode(single_byte);
    let decoded = encoder.decode(&encoded_data).unwrap();
    assert_eq!(decoded, single_byte);
}

#[test]
fn test_sse_parser_edge_cases() {
    let mut parser = SimdSseParser::new(all_features());

    let events = parser.parse_chunk(b"").unwrap();
    assert_eq!(events.len(), 0);

    let events = parser
        .parse_chunk(b": this is a comment\n: another comment\n")
        .unwrap();
    assert_eq!(events.len(), 0);

    let events = parser.parse_chunk(b"data: simple message\n\n").unwrap();
    assert_eq!(events.len(), 1);
    assert_eq!(events[0].data, "simple message");
    assert!(events[0].event.is_none());
}

#[test]
fn base64_known_encodings() {
    let codec = SimdBase64::new();
    assert_eq!(codec.encode(b"Hello"), "SGVsbG8=");
    assert_eq!(codec.encode(b"Ma"), "TWE=");
    assert_eq!(codec.encode(b"Man"), "TWFu");
    assert_eq!(codec.decode("TWFu").unwrap(), b"Man");
}

#[test]
fn base64_refuses_non_canonical_text() {
    let codec = SimdBase64::new();
    for bad in ["TWE", "T===", "TWF=", "@@@@"] {
        match codec.decode(bad) {
            Err(Error::Protocol { code, message, .. }) => {
                assert_eq!(code.as_i32(), -32700);
                assert!(message.starts_with("Base64 decode error: "));
            },
            other => panic!("expected a parse error for {bad}, got {other:?}"),
        }
    }
}

#[test]
fn sse_chunks_split_anywhere_give_the_same_events() {
    let stream: &[u8] = b"event: a\ndata: one\n\ndata: two\nid: 7\n\n: note\ndata: three\n\ndata: rest";
    let mut whole = SimdSseParser::new(no_features());
    let all = whole.parse_chunk(stream).unwrap();
    for cut in 0..stream.len() {
        let mut parser = SimdSseParser::new(no_features());
        let mut events = parser.parse_chunk(&stream[..cut]).unwrap();
        events.extend(parser.parse_chunk(&stream[cut..]).unwrap());
        assert_eq!(events, all, "cut at {cut}");
    }
    assert_eq!(all.len(), 3);
    assert_eq!(all[2].data, "three");
}

#[test]
fn sse_crlf_boundaries_need_sse42() {
    let data = b"data: x\r\n\r\ndata: y\n\n";
    let mut with = SimdSseParser::new(all_features());
    assert_eq!(with.parse_chunk(data).unwrap().len(), 2);
    let mut without = SimdSseParser::new(no_features());
    let events = without.parse_chunk(data).unwrap();
    assert_eq!(events.len(), 1);
    assert_eq!(events[0].data, "x\ny");
}

#[test]
fn sse_event_fields() {
    let e = parse_single_event(b"data: a\ndata:b\nretry: 3000\nretry: x\nfoo: bar\nid:  9 ").unwrap();
    assert_eq!(e.data, "a\nb");
    assert_eq!(e.retry, Some(3000));
    assert_eq!(e.id, Some("9".to_string()));
    assert!(parse_single_event(b"event: only\n").is_none());
}

#[test]
fn u64_parsing_follows_from_str() {
    let cs: Vec<char> = "+42 18446744073709551616 007".chars().collect();
    assert_eq!(parse_u64(&cs, 0, 3), Some(42));
    assert_eq!(parse_u64(&cs, 4, 24), None);
    assert_eq!(parse_u64(&cs, 25, 28), Some(7));
    assert_eq!(parse_u64(&cs, 0, 1), None);
}

#[test]
fn header_parsing_rules() {
    let parser = SimdHttpHeaderParser::new();
    let parsed = parser
        .parse_headers(b"X-A:  one \nNoColon\nX-A: two\n  \nX-B: after blank\n")
        .unwrap();
    assert_eq!(parsed.get("x-a"), Some(&"two".to_string()));
    assert_eq!(parsed.get("x-b"), None);
    assert_eq!(parsed.get("nocolon"), None);
}

#[test]
fn json_precheck_and_metrics() {
    let mut parser = SimdJsonParser::new(all_features());
    assert!(parser.precheck(b"{\"a\":{}}").is_ok());
    match parser.precheck(b"{\"a\":1") {
        Err(Error::Protocol { code, message, .. }) => {
            assert_eq!(code.as_i32(), -32700);
            assert_eq!(message, "Invalid JSON structure detected by SIMD validation");
        },
        _ => panic!("expected a parse error"),
    }
    parser.update_metrics(10, 100);
    parser.update_metrics(20, 300);
    let m = parser.get_metrics();
    assert_eq!(m.total_bytes_processed, 30);
    assert_eq!(m.total_documents_parsed, 2);
    assert_eq!(m.average_parse_time_ns, 200);
    assert_eq!(m.simd_operations_used, 1);
    assert_eq!(m.fallback_operations, 1);

    let mut plain = SimdJsonParser::new(no_features());
    assert!(plain.precheck(b"{").is_ok());
    assert_eq!(plain.get_metrics().fallback_operations, 0);
    assert_eq!(plain.get_cpu_features(), no_features());
}

#[test]
fn json_braces_inside_strings_do_not_count() {
    let parser = SimdJsonParser::new(all_features());
    assert!(parser.validate_json_structure(b"{\"k\":\"}{\\\"\"}"));
    assert!(!parser.validate_json_structure(b"}{"));
}

#[test]
fn sse_input_split_anywhere_gives_same_events() {
    let input: &[u8] = b"event: a\ndata: one\n\ndata: two\r\n\r\nid: 7\ndata: three\n\n: c\n\ndata: tail";
    for features in [all_features(), no_features()] {
        let mut whole = SimdSseParser::new(features);
        let all = whole.parse_chunk(input).unwrap();
        for cut in 0..=input.len() {
            let mut p = SimdSseParser::new(features);
            let mut got = p.parse_chunk(&input[..cut]).unwrap();
            got.extend(p.parse_chunk(&input[cut..]).unwrap());
            assert_eq!(got.len(), all.len());
            for (x, y) in got.iter().zip(all.iter()) {
                assert_eq!((&x.data, &x.event, &x.id, x.retry), (&y.data, &y.event, &y.id, y.retry));
            }
        }
    }
    let mut p = SimdSseParser::new(no_features());
    assert!(p.parse_chunk(b"data: a\n").unwrap().is_empty());
    let events = p.parse_chunk(b"\ndata: b\n\n").unwrap();
    assert_eq!(events.len(), 2);
    assert_eq!(events[0].data, "a");
    assert_eq!(events[1].data, "b");
}
