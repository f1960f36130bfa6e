use tunneldesk::capture::{micros_of_nanos, Capture, CaptureOutcome, LogLevel};
use tunneldesk::storage::{QueryFilter, RequestStorage, SortDirection, WebSocketMessageStorage, WebSocketMessageType};

fn new_capture(max_requests: usize) -> Capture {
    let storage = RequestStorage::new(max_requests);
    let websocket_storage = WebSocketMessageStorage::new(1000);
    Capture::new(storage, websocket_storage, "off", 1024)
}

#[test]
fn test_log_level_from_str() {
    assert_eq!(LogLevel::from("off"), LogLevel::Off);
    assert_eq!(LogLevel::from("OFF"), LogLevel::Off);
    assert_eq!(LogLevel::from("basic"), LogLevel::Basic);
    assert_eq!(LogLevel::from("BASIC"), LogLevel::Basic);
    assert_eq!(LogLevel::from("full"), LogLevel::Full);
    assert_eq!(LogLevel::from("FULL"), LogLevel::Full);
    assert_eq!(LogLevel::from("invalid"), LogLevel::Basic);
    assert_eq!(LogLevel::from(""), LogLevel::Basic);
}

#[test]
fn test_log_level_display() {
    assert_eq!(LogLevel::Off.to_string(), "off");
    assert_eq!(LogLevel::Basic.to_string(), "basic");
    assert_eq!(LogLevel::Full.to_string(), "full");
}

#[test]
fn test_capture_new() {
    let storage = RequestStorage::new(100);
    let websocket_storage = WebSocketMessageStorage::new(1000);
    let capture = Capture::new(storage, websocket_storage, "full", 1024);
    assert!(matches!(capture.log_level, LogLevel::Full));
    assert_eq!(capture.log_body_limit, 1024);
}

#[test]
fn test_body_preview_below_limit() {
    assert_eq!(Capture::body_preview(b"hello", 10), "hello");
}

#[test]
fn test_body_preview_at_limit() {
    assert_eq!(Capture::body_preview(b"hello", 5), "hello");
}

#[test]
fn test_body_preview_exceeds_limit() {
    assert_eq!(Capture::body_preview(b"hello world", 5), "hello...");
}

#[test]
fn test_body_preview_empty() {
    assert_eq!(Capture::body_preview(b"", 10), "");
}

#[test]
fn test_body_preview_zero_limit() {
    assert_eq!(Capture::body_preview(b"hello", 0), "...");
}

#[test]
fn test_capture_raw_message_get_request() {
    let mut capture = new_capture(100);
    let raw_message = b"GET /api/users HTTP/1.1\r\nHost: example.com\r\nContent-Type: application/json\r\n\r\n{\"key\":\"value\"}";
    let outcome = capture.capture_raw_message("test_tunnel", "test-connection", "incoming", raw_message);
    assert!(matches!(outcome, CaptureOutcome::Request { .. }));

    let requests = capture.storage.get_all_requests();
    assert_eq!(requests.len(), 1);
    let request = &requests[0].request;
    assert_eq!(request.method, "GET");
    assert_eq!(request.url, "/api/users");
    assert_eq!(request.tunnel_name, "test_tunnel");
    assert_eq!(request.headers.get("Host"), Some(&"example.com".to_string()));
    assert_eq!(request.headers.get("Content-Type"), Some(&"application/json".to_string()));
    assert_eq!(request.body, b"{\"key\":\"value\"}");
}

#[test]
fn test_capture_raw_message_post_request() {
    let mut capture = new_capture(100);
    let raw_message = b"POST /api/data HTTP/1.1\r\nHost: api.example.com\r\nContent-Length: 12\r\n\r\nHello World!";
    capture.capture_raw_message("api_tunnel", "test-connection", "outgoing", raw_message);

    let requests = capture.storage.get_all_requests();
    assert_eq!(requests.len(), 1);
    let request = &requests[0].request;
    assert_eq!(request.method, "POST");
    assert_eq!(request.url, "/api/data");
    assert_eq!(request.body, b"Hello World!");
}

#[test]
fn test_capture_raw_message_http_response() {
    let mut capture = new_capture(100);
    let raw_message = b"HTTP/1.1 200 OK\r\nContent-Type: application/json\r\nContent-Length: 18\r\n\r\n{\"success\":true}";
    let outcome = capture.capture_raw_message("test_tunnel", "test-connection", "incoming", raw_message);
    assert!(matches!(outcome, CaptureOutcome::Response { status: 200, exchange: None }));

    let requests = capture.storage.get_all_requests();
    assert_eq!(requests.len(), 0);
}

#[test]
fn test_capture_raw_message_invalid_http() {
    let mut capture = new_capture(100);
    let outcome = capture.capture_raw_message("test_tunnel", "test-connection", "incoming", b"Invalid HTTP message");
    assert!(matches!(outcome, CaptureOutcome::Ignored));
    assert_eq!(capture.storage.get_all_requests().len(), 0);
}

#[test]
fn test_capture_raw_message_empty() {
    let mut capture = new_capture(100);
    let outcome = capture.capture_raw_message("test_tunnel", "test-connection", "incoming", b"");
    assert!(matches!(outcome, CaptureOutcome::Ignored));
    assert_eq!(capture.storage.get_all_requests().len(), 0);
}

#[test]
fn test_capture_raw_message_request_without_body() {
    let mut capture = new_capture(100);
    let raw_message = b"GET /api/users HTTP/1.1\r\nHost: example.com\r\n\r\n";
    capture.capture_raw_message("test_tunnel", "test-connection", "incoming", raw_message);

    let requests = capture.storage.get_all_requests();
    assert_eq!(requests.len(), 1);
    let request = &requests[0].request;
    assert_eq!(request.method, "GET");
    assert_eq!(request.body, b"");
}

#[test]
fn test_capture_websocket_message_text() {
    let mut capture = new_capture(100);
    let mut frame = Vec::new();
    frame.push(0x81);
    frame.push(0x10);
    frame.extend_from_slice(b"Hello WebSocket!");
    let stored = capture.capture_websocket_message_raw("ws_tunnel", "test-connection", "outgoing", &frame);
    assert!(stored.is_some());

    let messages = capture.websocket_storage.get_all_messages();
    assert_eq!(messages.len(), 1);
    let message = &messages[0];
    assert_eq!(message.tunnel_name, "ws_tunnel");
    assert_eq!(message.direction, "outgoing");
    assert!(matches!(message.message_type, WebSocketMessageType::Text));
    assert_eq!(message.payload, b"Hello WebSocket!");
}

#[test]
fn test_capture_websocket_message_binary() {
    let mut capture = new_capture(100);
    let mut frame = Vec::new();
    frame.push(0x82);
    frame.push(0x04);
    frame.extend_from_slice(&[0x01, 0x02, 0x03, 0x04]);
    capture.capture_websocket_message_raw("ws_tunnel", "test-connection", "incoming", &frame);

    let messages = capture.websocket_storage.get_all_messages();
    assert_eq!(messages.len(), 1);
    let message = &messages[0];
    assert_eq!(message.direction, "incoming");
    assert!(matches!(message.message_type, WebSocketMessageType::Binary));
    assert_eq!(message.payload, &[0x01, 0x02, 0x03, 0x04]);
}

#[test]
fn test_capture_websocket_message_masked() {
    let mut capture = new_capture(100);
    let mut frame = Vec::new();
    frame.push(0x81);
    frame.push(0x85);
    frame.extend_from_slice(&[0x12, 0x34, 0x56, 0x78]);
    frame.extend_from_slice(&[0x48 ^ 0x12, 0x65 ^ 0x34, 0x6C ^ 0x56, 0x6C ^ 0x78, 0x6F ^ 0x12]);
    capture.capture_websocket_message_raw("ws_tunnel", "test-connection", "outgoing", &frame);

    let messages = capture.websocket_storage.get_all_messages();
    assert_eq!(messages.len(), 1);
    assert_eq!(messages[0].payload, b"Hello");
}

#[test]
fn test_capture_websocket_message_too_short() {
    let mut capture = new_capture(100);
    let stored = capture.capture_websocket_message_raw("ws_tunnel", "test-connection", "outgoing", &[0x81]);
    assert!(stored.is_none());
    assert_eq!(capture.websocket_storage.get_all_messages().len(), 0);
}

#[test]
fn test_capture_websocket_message_incomplete_payload() {
    let mut capture = new_capture(100);
    let mut frame = Vec::new();
    frame.push(0x81);
    frame.push(0x0A);
    frame.extend_from_slice(b"Hello");
    capture.capture_websocket_message_raw("ws_tunnel", "test-connection", "outgoing", &frame);
    assert_eq!(capture.websocket_storage.get_all_messages().len(), 0);
}

#[test]
fn test_capture_websocket_message_extended_payload_length() {
    let mut capture = new_capture(100);
    let mut frame = Vec::new();
    frame.push(0x81);
    frame.push(0x7E);
    frame.extend_from_slice(&[0x00, 0x7E]);
    frame.extend_from_slice(&[0x42; 126]);
    capture.capture_websocket_message_raw("ws_tunnel", "test-connection", "outgoing", &frame);

    let messages = capture.websocket_storage.get_all_messages();
    assert_eq!(messages.len(), 1);
    assert_eq!(messages[0].payload.len(), 126);
}

#[test]
fn test_capture_websocket_message_unknown_opcode() {
    let mut capture = new_capture(100);
    let mut frame = Vec::new();
    frame.push(0x88);
    frame.push(0x02);
    frame.extend_from_slice(&[0x03, 0xE8]);
    capture.capture_websocket_message_raw("ws_tunnel", "test-connection", "outgoing", &frame);

    let messages = capture.websocket_storage.get_all_messages();
    assert_eq!(messages.len(), 1);
    assert!(matches!(messages[0].message_type, WebSocketMessageType::Binary));
}

#[test]
fn capture_test_all_http_methods() {
    let methods = ["GET", "POST", "PUT", "DELETE", "HEAD", "OPTIONS", "PATCH"];
    for method in methods.iter() {
        let mut capture = new_capture(100);
        let raw_message = format!("{} /test HTTP/1.1\r\nHost: example.com\r\n\r\n", method);
        let outcome = capture.capture_raw_message("test_tunnel", "test-connection", "incoming", raw_message.as_bytes());
        assert!(matches!(outcome, CaptureOutcome::Request { .. }));
        let requests = capture.storage.get_all_requests();
        assert_eq!(requests[0].request.method, *method);
    }
}

#[test]
fn test_storage_limits() {
    let mut capture = new_capture(2);
    for i in 0..3 {
        let raw_message = format!("GET /test{} HTTP/1.1\r\nHost: example.com\r\n\r\n", i);
        capture.capture_raw_message("test_tunnel", "test-connection", "incoming", raw_message.as_bytes());
    }
    let requests = capture.storage.get_all_requests();
    assert_eq!(requests.len(), 2);
}

#[test]
fn test_websocket_upgrade_tracking() {
    let mut capture = new_capture(100);
    let connection_id = "test-connection-ws";
    let upgrade_request = b"GET /ws HTTP/1.1\r\nHost: example.com\r\nUpgrade: websocket\r\nConnection: Upgrade\r\nSec-WebSocket-Key: dGhlIHNhbXBsZSBub25jZQ==\r\nSec-WebSocket-Version: 13\r\n\r\n";
    capture.capture_raw_message("test_tunnel", connection_id, "→", upgrade_request);

    let requests = capture.storage.get_all_requests();
    assert_eq!(requests.len(), 1);
    let upgrade_request_id = requests[0].request.id.clone();

    let ws_frame = b"\x81\x05Hello";
    capture.capture_websocket_message_raw("test_tunnel", connection_id, "outgoing", ws_frame);

    let messages = capture.websocket_storage.get_all_messages();
    assert_eq!(messages.len(), 1);
    let message = &messages[0];
    assert_eq!(message.upgrade_request_id, upgrade_request_id);
    assert_eq!(message.tunnel_name, "test_tunnel");
    assert_eq!(message.direction, "outgoing");
}

#[test]
fn test_websocket_message_without_upgrade() {
    let mut capture = new_capture(100);
    capture.capture_websocket_message_raw("test_tunnel", "test-connection-no-ws", "outgoing", b"\x81\x05Hello");

    let messages = capture.websocket_storage.get_all_messages();
    assert_eq!(messages.len(), 1);
    let message = &messages[0];
    assert_eq!(message.upgrade_request_id, "unknown");
    assert_eq!(message.tunnel_name, "test_tunnel");
    assert_eq!(message.direction, "outgoing");
}

#[test]
fn test_non_websocket_upgrade_request() {
    let mut capture = new_capture(100);
    let connection_id = "test-connection-http";
    capture.capture_raw_message("test_tunnel", connection_id, "→", b"GET /api/users HTTP/1.1\r\nHost: example.com\r\n\r\n");
    capture.capture_websocket_message_raw("test_tunnel", connection_id, "outgoing", b"\x81\x05Hello");

    let messages = capture.websocket_storage.get_all_messages();
    assert_eq!(messages.len(), 1);
    assert_eq!(messages[0].upgrade_request_id, "unknown");
}

#[test]
fn test_connection_based_request_response_matching() {
    let mut capture = new_capture(100);
    let connection_id = "test-connection-1";
    capture.capture_raw_message("test_tunnel", connection_id, "→", b"GET /api/users HTTP/1.1\r\nHost: example.com\r\n\r\n");
    let outcome = capture.capture_raw_message(
        "test_tunnel",
        connection_id,
        "←",
        b"HTTP/1.1 200 OK\r\nContent-Type: application/json\r\n\r\n{\"users\":[]}",
    );
    match outcome {
        CaptureOutcome::Response { status, exchange } => {
            assert_eq!(status, 200);
            let exchange = exchange.expect("the response completes the stored exchange");
            assert_eq!(exchange.request.url, "/api/users");
        }
        _ => panic!("expected a response"),
    }

    let requests = capture.storage.get_all_requests();
    assert_eq!(requests.len(), 1);
    let exchange = &requests[0];
    assert_eq!(exchange.request.method, "GET");
    assert_eq!(exchange.request.url, "/api/users");
    assert!(exchange.response.is_some());
    let response = exchange.response.as_ref().unwrap();
    assert_eq!(response.status, 200);
    assert_eq!(response.request_id, exchange.request.id);
    assert!(response.response_time_us.is_some());
}

#[test]
fn test_multiple_requests_same_connection_fifo_ordering() {
    let mut capture = new_capture(100);
    let connection_id = "test-connection-2";
    capture.capture_raw_message("test_tunnel", connection_id, "→", b"GET /api/users HTTP/1.1\r\nHost: example.com\r\n\r\n");
    capture.capture_raw_message(
        "test_tunnel",
        connection_id,
        "→",
        b"POST /api/data HTTP/1.1\r\nHost: example.com\r\n\r\n{\"data\":\"value\"}",
    );
    capture.capture_raw_message("test_tunnel", connection_id, "←", b"HTTP/1.1 200 OK\r\n\r\n{\"users\":[]}");
    capture.capture_raw_message("test_tunnel", connection_id, "←", b"HTTP/1.1 201 Created\r\n\r\n{\"id\":123}");

    let mut sorted_filter = QueryFilter::new();
    sorted_filter.sort_direction = Some(SortDirection::Asc);
    let requests = capture.storage.query_requests(&sorted_filter);
    assert_eq!(requests.len(), 2);
    assert_eq!(requests[0].request.method, "GET");
    assert_eq!(requests[0].request.url, "/api/users");
    assert!(requests[0].response.is_some());
    assert_eq!(requests[0].response.as_ref().unwrap().status, 200);
    assert_eq!(requests[1].request.method, "POST");
    assert_eq!(requests[1].request.url, "/api/data");
    assert!(requests[1].response.is_some());
    assert_eq!(requests[1].response.as_ref().unwrap().status, 201);
}

#[test]
fn test_different_connections_independent_matching() {
    let mut capture = new_capture(100);
    capture.capture_raw_message("test_tunnel", "connection-1", "→", b"GET /api/users HTTP/1.1\r\nHost: example.com\r\n\r\n");
    capture.capture_raw_message("test_tunnel", "connection-2", "→", b"GET /api/posts HTTP/1.1\r\nHost: example.com\r\n\r\n");
    capture.capture_raw_message("test_tunnel", "connection-2", "←", b"HTTP/1.1 404 Not Found\r\n\r\n{\"error\":\"Not found\"}");
    capture.capture_raw_message("test_tunnel", "connection-1", "←", b"HTTP/1.1 200 OK\r\n\r\n{\"users\":[]}");

    let requests = capture.storage.get_all_requests();
    assert_eq!(requests.len(), 2);
    for exchange in &requests {
        assert!(exchange.response.is_some());
    }
    let users_req = requests.iter().find(|r| r.request.url == "/api/users").unwrap();
    let posts_req = requests.iter().find(|r| r.request.url == "/api/posts").unwrap();
    assert_eq!(users_req.response.as_ref().unwrap().status, 200);
    assert_eq!(posts_req.response.as_ref().unwrap().status, 404);
}

#[test]
fn test_capture_binary_request_body() {
    let mut capture = new_capture(100);
    let png_header = b"\x89PNG\r\n\x1a\n\x00\x00\x00\rIHDR\x00\x00\x00\x01\x00\x00\x00\x01\x08\x02\x00\x00\x00\x90wS\xde\x00\x00\x00\x0cIDATx\x9cc``\x00\x00\x00\x00\x01\x00\x01\x00\x00\x00\x00IEND\xaeB`\x82";
    let raw_request = format!(
        "POST /upload HTTP/1.1\r\nHost: example.com\r\nContent-Type: image/png\r\nContent-Length: {}\r\n\r\n",
        png_header.len()
    );
    let mut full_request = raw_request.into_bytes();
    full_request.extend_from_slice(png_header);
    capture.capture_raw_message("test_tunnel", "test-connection", "outgoing", &full_request);

    let requests = capture.storage.get_all_requests();
    assert_eq!(requests.len(), 1);
    let request = &requests[0].request;
    assert_eq!(request.method, "POST");
    assert_eq!(request.url, "/upload");
    assert_eq!(request.headers.get("Content-Type"), Some(&"image/png".to_string()));
    assert_eq!(request.body, png_header);
    assert_eq!(request.body.len(), png_header.len());
    assert!(request.raw_request.windows(png_header.len()).any(|window| window == png_header));
}

#[test]
fn test_capture_binary_response_body() {
    let mut capture = new_capture(100);
    capture.capture_raw_message("test_tunnel", "test-connection", "outgoing", b"GET /image.png HTTP/1.1\r\nHost: example.com\r\n\r\n");
    let jpeg_header = b"\xff\xd8\xff\xe0\x00\x10JFIF\x00\x01\x01\x01\x00H\x00H\x00\x00\xff\xdb\x00C\x00\x08\x06\x06\x07\x06\x05\x08\x07\x07\x07\t\x0e\x12\x11\t\x12\x11\t\x12\x11\t\x12\x11\t\x12\x11\t\x12\x11\t\x12\x11\t\x12\x11\t\x13\x13\x1a\x1a\x1a\x1a\x1a\x1a\x1a\x1a\x1a\x1a\xff\xc0\x00\x11\x08\x00\x01\x00\x01\x01\x01\x11\x00\x02\x11\x01\x03\x11\x01\xff\xc4\x00\x14\x00\x01\x00\x00\x00\x00\x00\x00\x00\x00\x00\x00\x00\x00\x00\x00\x00\x00\x08\xff\xc4\x00\x14\x10\x01\x00\x00\x00\x00\x00\x00\x00\x00\x00\x00\x00\x00\x00\x00\x00\x00\x00\xff\xda\x00\x0c\x03\x01\x00\x02\x11\x03\x11\x00\x3f\x00\x80\xff\xd9";
    let raw_response = format!(
        "HTTP/1.1 200 OK\r\nContent-Type: image/jpeg\r\nContent-Length: {}\r\n\r\n",
        jpeg_header.len()
    );
    let mut full_response = raw_response.into_bytes();
    full_response.extend_from_slice(jpeg_header);
    capture.capture_raw_message("test_tunnel", "test-connection", "incoming", &full_response);

    let requests = capture.storage.get_all_requests();
    assert_eq!(requests.len(), 1);
    let exchange = &requests[0];
    assert!(exchange.response.is_some());
    let response = exchange.response.as_ref().unwrap();
    assert_eq!(response.status, 200);
    assert_eq!(response.headers.get("Content-Type"), Some(&"image/jpeg".to_string()));
    assert_eq!(response.body, jpeg_header);
    assert_eq!(response.body.len(), jpeg_header.len());
    assert!(response.raw_response.windows(jpeg_header.len()).any(|window| window == jpeg_header));
}

#[test]
fn test_capture_mixed_binary_text_data() {
    let mut capture = new_capture(100);
    let mixed_data = b"Hello\x00\x01\x02World\xff\xfe\x03\x04End";
    let raw_request = format!("POST /mixed HTTP/1.1\r\nHost: example.com\r\nContent-Length: {}\r\n\r\n", mixed_data.len());
    let mut full_request = raw_request.into_bytes();
    full_request.extend_from_slice(mixed_data);
    capture.capture_raw_message("test_tunnel", "test-connection", "outgoing", &full_request);

    let requests = capture.storage.get_all_requests();
    assert_eq!(requests.len(), 1);
    let request = &requests[0].request;
    assert_eq!(request.body, mixed_data);
    assert_eq!(request.body.len(), mixed_data.len());
    assert_eq!(request.body[0], b'H');
    assert_eq!(request.body[5], 0x00);
    assert_eq!(request.body[6], 0x01);
    assert_eq!(request.body[13], 0xff);
    assert_eq!(request.body[17], b'E');
}

#[test]
fn test_binary_body_with_different_line_endings() {
    let mut capture = new_capture(100);
    let binary_body = b"\x01\x02\x03\x04\x05";
    capture.capture_raw_message(
        "test_tunnel",
        "test-connection",
        "outgoing",
        b"POST /test HTTP/1.1\r\nHost: example.com\r\nContent-Length: 5\r\n\r\n\x01\x02\x03\x04\x05",
    );
    let requests = capture.storage.get_all_requests();
    assert_eq!(requests.len(), 1);
    assert_eq!(requests[0].request.body, binary_body);

    capture.storage.clear();

    capture.capture_raw_message(
        "test_tunnel",
        "test-connection2",
        "outgoing",
        b"POST /test HTTP/1.1\nHost: example.com\nContent-Length: 5\n\n\x01\x02\x03\x04\x05",
    );
    let requests = capture.storage.get_all_requests();
    assert_eq!(requests.len(), 1);
    assert_eq!(requests[0].request.body, binary_body);
}

#[test]
fn capture_at_fixed_id_and_time_records_them() {
    let mut capture = new_capture(100);
    let outcome = capture.capture_raw_message_at(
        "t",
        "c",
        b"GET /x HTTP/1.1\r\nHost: h\r\n\r\n",
        "req-7".to_string(),
        1_000_000,
    );
    assert!(matches!(outcome, CaptureOutcome::Request { ref id } if id == "req-7"));
    let outcome = capture.capture_raw_message_at("t", "c", b"HTTP/1.1 204 No Content\r\n\r\n", "unused".to_string(), 1_250_400);
    match outcome {
        CaptureOutcome::Response { status, exchange: Some(exchange) } => {
            assert_eq!(status, 204);
            let response = exchange.response.unwrap();
            assert_eq!(response.request_id, "req-7");
            assert_eq!(response.timestamp, 1_250_400);
            assert_eq!(response.response_time_us, Some(250));
        }
        _ => panic!("expected a matched response"),
    }
    let stored = capture.storage.get_request_by_id("req-7").unwrap();
    assert_eq!(stored.request.timestamp, 1_000_000);
    assert!(!stored.request.replayed);
}

#[test]
fn capture_response_without_request_is_unknown() {
    let mut capture = new_capture(100);
    let outcome = capture.capture_raw_message_at("t", "c", b"HTTP/1.1 500 Oops\r\n\r\n", "x".to_string(), 5);
    assert!(matches!(outcome, CaptureOutcome::Response { status: 500, exchange: None }));
}

#[test]
fn capture_status_line_without_numeric_code_is_ignored() {
    let mut capture = new_capture(100);
    let outcome = capture.capture_raw_message_at("t", "c", b"HTTP/1.1 abc\r\n\r\n", "x".to_string(), 5);
    assert!(matches!(outcome, CaptureOutcome::Ignored));
}

#[test]
fn response_time_is_whole_microseconds_rounded_toward_zero() {
    assert_eq!(micros_of_nanos(250_400), 250);
    assert_eq!(micros_of_nanos(999), 0);
    assert_eq!(micros_of_nanos(-1_500), -1);
    assert_eq!(micros_of_nanos(i64::MIN), -9_223_372_036_854_775);
}
