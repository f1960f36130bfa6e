use tunneldesk::proxy::{
    extract_content_length, find_http_start, is_101_switching_protocols, is_websocket_upgrade_headers,
    starts_with_http, try_extract_websocket_frame, CapturedChunk, CapturedKind, TeeCapture, TeeReaderState,
};

/// Feeds `data` to a fresh machine in reads of at most `chunk` bytes and
/// returns the machine and every chunk it captured.
fn run(data: &[u8], max_body_size: usize, chunk: usize) -> (TeeCapture, Vec<CapturedChunk>) {
    let mut tee = TeeCapture::new(max_body_size);
    let mut captured = Vec::new();
    for piece in data.chunks(chunk.max(1)) {
        captured.extend(tee.advance_state(piece));
    }
    (tee, captured)
}

#[test]
fn test_tee_reader_creation() {
    let tee = TeeCapture::new(65536);
    assert_eq!(tee.max_body_size, 65536);
    assert!(tee.buf.is_empty());
    assert!(matches!(tee.state, TeeReaderState::FindingHeaders { scan_pos: 0 }));
    assert!(!tee.websocket_upgraded);
}

#[test]
fn test_tee_reader_basic_reading() {
    let (tee, captured) = run(b"Hello, World!", 65536, 1024);
    assert!(captured.is_empty());
    assert!(matches!(tee.state, TeeReaderState::FindingHeaders { .. }));
}

#[test]
fn test_body_below_limit_state() {
    let msg = b"HTTP/1.1 200 OK\r\nContent-Length: 5\r\n\r\nHello";
    let (tee, captured) = run(msg, 65536, msg.len());
    assert!(matches!(tee.state, TeeReaderState::FindingHeaders { .. }));
    assert!(tee.buf.is_empty());
    assert_eq!(captured.len(), 1);
    assert_eq!(captured[0].kind, CapturedKind::Http);
    assert_eq!(captured[0].bytes, msg.to_vec());
}

#[test]
fn test_body_at_limit_state() {
    let mut msg = b"HTTP/1.1 200 OK\r\nContent-Length: 100\r\n\r\n".to_vec();
    msg.extend_from_slice(&[b'X'; 100]);
    let (tee, captured) = run(&msg, 100, msg.len());
    assert!(matches!(tee.state, TeeReaderState::FindingHeaders { .. }));
    assert!(tee.buf.is_empty());
    assert_eq!(captured.len(), 1);
    assert_eq!(captured[0].bytes, msg);
}

#[test]
fn test_body_exceeds_limit_state() {
    let header = b"HTTP/1.1 200 OK\r\nContent-Length: 500\r\n\r\n";
    let mut msg = header.to_vec();
    msg.extend_from_slice(&[b'Z'; 500]);
    let (tee, captured) = run(&msg, 100, msg.len());
    assert!(matches!(tee.state, TeeReaderState::FindingHeaders { .. }));
    assert!(tee.buf.is_empty());
    assert_eq!(captured.len(), 1);
    assert_eq!(captured[0].bytes.len(), header.len() + 100);
}

#[test]
fn test_buf_capped_at_max_body_size_during_drain() {
    let cap = 200_usize;
    let header = b"HTTP/1.1 200 OK\r\nContent-Length: 1000\r\n\r\n";
    let partial: Vec<u8> = header.iter().chain(vec![b'Y'; cap].iter()).copied().collect();
    let (tee, captured) = run(&partial, cap, partial.len());
    match tee.state {
        TeeReaderState::DrainBody { bytes_remaining } => assert_eq!(bytes_remaining, 1000 - cap),
        other => panic!("Expected DrainBody, got {:?}", other),
    }
    assert!(tee.buf.is_empty());
    assert_eq!(captured.len(), 1);
}

#[test]
fn test_pipelined_http_requests() {
    let req1 = b"GET /a HTTP/1.1\r\nHost: example.com\r\n\r\n";
    let req2 = b"GET /b HTTP/1.1\r\nHost: example.com\r\n\r\n";
    let mut data = req1.to_vec();
    data.extend_from_slice(req2);
    let (tee, captured) = run(&data, 65536, data.len());
    assert!(matches!(tee.state, TeeReaderState::FindingHeaders { .. }));
    assert!(tee.buf.is_empty());
    assert_eq!(captured.len(), 2);
    assert_eq!(captured[0].bytes, req1.to_vec());
    assert_eq!(captured[1].bytes, req2.to_vec());
}

#[test]
fn test_pipelined_requests_with_bodies() {
    let req1 = b"POST /a HTTP/1.1\r\nContent-Length: 4\r\n\r\ndata";
    let req2 = b"POST /b HTTP/1.1\r\nContent-Length: 3\r\n\r\nabc";
    let mut data = req1.to_vec();
    data.extend_from_slice(req2);
    let (tee, captured) = run(&data, 65536, data.len());
    assert!(matches!(tee.state, TeeReaderState::FindingHeaders { .. }));
    assert!(tee.buf.is_empty());
    assert_eq!(captured.len(), 2);
    assert_eq!(captured[0].bytes, req1.to_vec());
    assert_eq!(captured[1].bytes, req2.to_vec());
}

#[test]
fn test_header_delimiter_split_across_reads() {
    let msg = b"HTTP/1.1 200 OK\r\nContent-Length: 5\r\n\r\nhello";
    let delim_pos = msg.windows(4).position(|w| w == b"\r\n\r\n").unwrap();
    let split = delim_pos + 3;
    let (tee, captured) = run(msg, 65536, split);
    assert!(matches!(tee.state, TeeReaderState::FindingHeaders { .. }));
    assert_eq!(captured.len(), 1);
    assert_eq!(captured[0].bytes, msg.to_vec());
}

#[test]
fn test_large_body_multiple_reads_all_forwarded() {
    let header = b"HTTP/1.1 200 OK\r\nContent-Length: 10000\r\n\r\n";
    let mut data = header.to_vec();
    data.extend_from_slice(&[0xCD_u8; 10_000]);
    let (tee, captured) = run(&data, 500, 128);
    assert!(matches!(tee.state, TeeReaderState::FindingHeaders { .. }));
    assert_eq!(captured.len(), 1);
    assert_eq!(captured[0].bytes.len(), header.len() + 500);
}

#[test]
fn test_incremental_scan_pos_no_rescan() {
    let msg = b"GET /path HTTP/1.1\r\nHost: example.com\r\n\r\n";
    let (tee, captured) = run(msg, 65536, 1);
    assert!(matches!(tee.state, TeeReaderState::FindingHeaders { .. }));
    assert_eq!(captured.len(), 1);
    assert_eq!(captured[0].bytes, msg.to_vec());
}

#[test]
fn test_no_content_length_captures_headers_only() {
    let msg = b"HTTP/1.1 204 No Content\r\nDate: Mon, 01 Jan 2024\r\n\r\n";
    let (tee, captured) = run(msg, 65536, msg.len());
    assert!(matches!(tee.state, TeeReaderState::FindingHeaders { .. }));
    assert!(tee.buf.is_empty());
    assert_eq!(captured.len(), 1);
    assert_eq!(captured[0].bytes, msg.to_vec());
}

#[test]
fn proxy_test_all_http_methods() {
    let methods = ["GET", "POST", "PUT", "DELETE", "HEAD", "OPTIONS", "PATCH"];
    for method in methods {
        let msg = format!("{} / HTTP/1.1\r\nHost: example.com\r\n\r\n", method);
        let (_, captured) = run(msg.as_bytes(), 65536, msg.len());
        assert_eq!(captured.len(), 1, "one capture for {}", method);
        assert_eq!(captured[0].bytes, msg.as_bytes().to_vec());
    }
}

#[test]
fn test_websocket_frames_forwarded() {
    let upgrade = b"GET /ws HTTP/1.1\r\nUpgrade: websocket\r\nConnection: Upgrade\r\n\r\n";
    let frame1 = b"\x81\x05Hello";
    let frame2 = b"\x82\x03abc";
    let mut data = upgrade.to_vec();
    data.extend_from_slice(frame1);
    data.extend_from_slice(frame2);
    let (tee, captured) = run(&data, 65536, data.len());
    assert!(tee.websocket_upgraded);
    assert_eq!(captured.len(), 3);
    assert_eq!(captured[0].kind, CapturedKind::Http);
    assert_eq!(captured[1].kind, CapturedKind::WebSocket);
    assert_eq!(captured[1].bytes, frame1.to_vec());
    assert_eq!(captured[2].bytes, frame2.to_vec());
}

#[test]
fn test_starts_with_http_request_methods() {
    assert!(starts_with_http(b"GET / HTTP/1.1\r\n"));
    assert!(starts_with_http(b"POST /x HTTP/1.1\r\n"));
    assert!(starts_with_http(b"PUT /y HTTP/1.1\r\n"));
    assert!(starts_with_http(b"DELETE /z HTTP/1.1\r\n"));
    assert!(starts_with_http(b"HEAD / HTTP/1.1\r\n"));
    assert!(starts_with_http(b"OPTIONS * HTTP/1.1\r\n"));
    assert!(starts_with_http(b"PATCH /p HTTP/1.1\r\n"));
}

#[test]
fn test_starts_with_http_response() {
    assert!(starts_with_http(b"HTTP/1.1 200 OK\r\n"));
    assert!(starts_with_http(b"HTTP/1.0 404 Not Found\r\n"));
}

#[test]
fn test_starts_with_http_websocket_frame() {
    let ws_frame = b"\x81\x85\x37\xfa\x21\x3d\x7f\x9f\x4d\x51\x58";
    assert!(!starts_with_http(ws_frame));
}

#[test]
fn test_starts_with_http_empty() {
    assert!(!starts_with_http(b""));
}

#[test]
fn test_extract_content_length() {
    let data = b"HTTP/1.1 200 OK\r\nContent-Type: text/plain\r\nContent-Length: 42\r\n\r\n";
    assert_eq!(extract_content_length(data), Some(42));
}

#[test]
fn test_extract_content_length_case_insensitive() {
    let data = b"HTTP/1.1 200 OK\r\ncontent-length: 100\r\n\r\n";
    assert_eq!(extract_content_length(data), Some(100));
}

#[test]
fn test_extract_content_length_no_header() {
    let data = b"HTTP/1.1 200 OK\r\nContent-Type: text/plain\r\n\r\n";
    assert_eq!(extract_content_length(data), None);
}

#[test]
fn test_extract_content_length_invalid_format() {
    let data = b"HTTP/1.1 200 OK\r\nContent-Length: invalid\r\n\r\n";
    assert_eq!(extract_content_length(data), None);
}

#[test]
fn test_extract_content_length_with_spaces() {
    let data = b"HTTP/1.1 200 OK\r\nContent-Length:   25   \r\n\r\n";
    assert_eq!(extract_content_length(data), Some(25));
}

fn assert_whole_frame(frame: &[u8]) {
    let result = try_extract_websocket_frame(frame);
    assert!(result.is_some());
    let (extracted, consumed) = result.unwrap();
    assert_eq!(extracted, frame);
    assert_eq!(consumed, frame.len());
}

#[test]
fn test_extract_websocket_text_frame() {
    assert_whole_frame(b"\x81\x85\x37\xfa\x21\x3d\x7f\x9f\x4d\x51\x58");
}

#[test]
fn test_extract_websocket_binary_frame() {
    assert_whole_frame(b"\x82\x83\x12\x34\x56\x78\x9a\xbc\xde");
}

#[test]
fn test_extract_websocket_close_frame() {
    assert_whole_frame(b"\x88\x82\x12\x34\x56\x78\x9a\xbc");
}

#[test]
fn test_extract_websocket_ping_frame() {
    assert_whole_frame(b"\x89\x84\x12\x34\x56\x78\x9a\xbc\xde\xf0");
}

#[test]
fn test_extract_websocket_pong_frame() {
    assert_whole_frame(b"\x8a\x84\x12\x34\x56\x78\x9a\xbc\xde\xf0");
}

#[test]
fn test_extract_websocket_extended_payload() {
    let mut frame = Vec::new();
    frame.extend_from_slice(&[0x82, 0x7e]);
    frame.extend_from_slice(&[0x00, 0x7e]);
    frame.extend_from_slice(&[0u8; 126]);
    assert_whole_frame(&frame);
}

#[test]
fn test_extract_websocket_incomplete() {
    assert!(try_extract_websocket_frame(b"\x81\x85").is_none());
}

#[test]
fn test_extract_websocket_invalid_opcode() {
    assert!(try_extract_websocket_frame(b"\x83\x85\x37\xfa\x21\x3d\x7f\x9f\x4d\x51\x58").is_none());
}

#[test]
fn test_extract_websocket_too_short() {
    assert!(try_extract_websocket_frame(b"\x81").is_none());
}

#[test]
fn test_websocket_continuation_frame() {
    assert_whole_frame(b"\x80\x85\x37\xfa\x21\x3d\x7f\x9f\x4d\x51\x58");
}

#[test]
fn test_websocket_unmasked_frame() {
    assert_whole_frame(b"\x81\x05Hello");
}

#[test]
fn find_http_start_skips_stale_bytes() {
    assert_eq!(find_http_start(b"xx\r\nGET / HTTP/1.1\r\n"), Some(4));
    assert_eq!(find_http_start(b"zzHTTP/1.1 200 OK"), Some(2));
    assert_eq!(find_http_start(b"no message here"), None);
}

#[test]
fn stale_bytes_before_a_message_are_skipped() {
    let msg = b"GET /a HTTP/1.1\r\nHost: h\r\n\r\n";
    let mut data = b"leftover".to_vec();
    data.extend_from_slice(msg);
    let (_, captured) = run(&data, 1024, data.len());
    assert_eq!(captured.len(), 1);
    assert_eq!(captured[0].bytes, msg.to_vec());
}

#[test]
fn upgrade_and_switching_protocols_are_recognised() {
    assert!(is_websocket_upgrade_headers(b"GET /ws HTTP/1.1\r\nUpgrade: WebSocket\r\nConnection: keep-alive, Upgrade\r\n\r\n"));
    assert!(!is_websocket_upgrade_headers(b"GET /ws HTTP/1.1\r\nUpgrade: websocket\r\n\r\n"));
    assert!(is_101_switching_protocols(b"HTTP/1.1 101 Switching Protocols\r\n\r\n"));
    assert!(!is_101_switching_protocols(b"HTTP/1.1 200 OK\r\n\r\n"));
}

#[test]
fn switching_protocols_response_turns_on_frame_mode() {
    let mut data = b"HTTP/1.1 101 Switching Protocols\r\nUpgrade: websocket\r\n\r\n".to_vec();
    data.extend_from_slice(b"\x81\x02hi");
    let (tee, captured) = run(&data, 1024, 7);
    assert!(tee.websocket_upgraded);
    assert_eq!(captured.len(), 2);
    assert_eq!(captured[1].kind, CapturedKind::WebSocket);
    assert_eq!(captured[1].bytes, b"\x81\x02hi".to_vec());
}

#[test]
fn captured_http_body_never_exceeds_the_limit() {
    let header = b"POST /u HTTP/1.1\r\nContent-Length: 50\r\n\r\n";
    let mut data = header.to_vec();
    data.extend_from_slice(&[7u8; 50]);
    for max in [0usize, 1, 10, 49, 50, 51] {
        for chunk in [1usize, 3, 64] {
            let (_, captured) = run(&data, max, chunk);
            assert_eq!(captured.len(), 1);
            assert_eq!(captured[0].bytes.len(), header.len() + max.min(50));
        }
    }
}
