use chrono::Utc;
use tunneldesk::storage::{
    Headers, QueryFilter, RequestStorage, SortDirection, StoredRequest, StoredResponse, StoredWebSocketMessage,
    WebSocketMessageFilter, WebSocketMessageStorage, WebSocketMessageType,
};

fn now_ns() -> i64 {
    Utc::now().timestamp_nanos_opt().unwrap()
}

fn create_test_request(id: &str, tunnel_name: &str, method: &str, url: &str) -> StoredRequest {
    StoredRequest {
        id: id.to_string(),
        timestamp: now_ns(),
        tunnel_name: tunnel_name.to_string(),
        method: method.to_string(),
        url: url.to_string(),
        headers: Headers::new(),
        body: vec![],
        raw_request: vec![],
        replayed: false,
    }
}

fn create_test_response(request_id: &str, status: u16) -> StoredResponse {
    StoredResponse {
        request_id: request_id.to_string(),
        timestamp: now_ns(),
        status,
        headers: Headers::new(),
        body: vec![],
        raw_response: vec![],
        response_time_us: None,
    }
}

fn request_at(id: &str, timestamp: i64) -> StoredRequest {
    let mut r = create_test_request(id, "tunnel1", "GET", "http://example.com");
    r.timestamp = timestamp;
    r
}

#[test]
fn test_request_storage_new() {
    let storage = RequestStorage::new(100);
    assert_eq!(storage.get_count(), 0);
}

#[test]
fn test_store_and_get_request() {
    let mut storage = RequestStorage::new(100);
    storage.store_request(create_test_request("req1", "tunnel1", "GET", "http://example.com"));
    assert_eq!(storage.get_count(), 1);
    let retrieved = storage.get_request_by_id("req1");
    assert!(retrieved.is_some());
    assert_eq!(retrieved.unwrap().request.id, "req1");
}

#[test]
fn test_store_response() {
    let mut storage = RequestStorage::new(100);
    storage.store_request(create_test_request("req1", "tunnel1", "GET", "http://example.com"));
    let completed = storage.store_response(create_test_response("req1", 200));
    assert!(completed.is_some());

    let exchange = storage.get_request_by_id("req1").unwrap();
    assert!(exchange.response.is_some());
    assert_eq!(exchange.response.unwrap().status, 200);
}

#[test]
fn test_get_next_pending_returns_id_and_timestamp() {
    let mut storage = RequestStorage::new(100);
    let request_time = now_ns();
    let mut request = create_test_request("req1", "tunnel1", "GET", "http://example.com");
    request.timestamp = request_time;
    storage.store_request_with_connection(request, "conn1");

    let result = storage.get_next_pending_request_for_connection("conn1");
    assert!(result.is_some());
    let (id, timestamp) = result.unwrap();
    assert_eq!(id, "req1");
    assert_eq!(timestamp, request_time);
}

#[test]
fn test_get_next_pending_none_for_unknown_connection() {
    let mut storage = RequestStorage::new(100);
    assert!(storage.get_next_pending_request_for_connection("unknown").is_none());
}

#[test]
fn test_response_time_ms_stored_correctly() {
    let mut storage = RequestStorage::new(100);
    let request_time = now_ns();
    let mut request = create_test_request("req1", "tunnel1", "GET", "http://example.com");
    request.timestamp = request_time;
    storage.store_request_with_connection(request, "conn1");

    let (id, req_timestamp) = storage.get_next_pending_request_for_connection("conn1").unwrap();
    let response_time = req_timestamp + 42_000_000;
    let elapsed = (response_time - req_timestamp) / 1000;
    let mut response = create_test_response(&id, 200);
    response.timestamp = response_time;
    response.response_time_us = Some(elapsed);
    storage.store_response(response);

    let exchange = storage.get_request_by_id("req1").unwrap();
    let response_time_ms = exchange.response.unwrap().response_time_us.unwrap() as f64 / 1000.0;
    assert!((response_time_ms - 42.0).abs() < 1.0);
}

#[test]
fn test_max_requests_limit() {
    let mut storage = RequestStorage::new(2);
    let req1 = create_test_request("req1", "tunnel1", "GET", "http://example1.com");
    let req2 = create_test_request("req2", "tunnel1", "POST", "http://example2.com");
    let req3 = create_test_request("req3", "tunnel1", "PUT", "http://example3.com");

    storage.store_request(req1);
    assert_eq!(storage.get_count(), 1);
    storage.store_request(req2);
    assert_eq!(storage.get_count(), 2);
    storage.store_request(req3);
    assert_eq!(storage.get_count(), 2);

    assert!(storage.get_request_by_id("req1").is_none());
    assert!(storage.get_request_by_id("req2").is_some());
    assert!(storage.get_request_by_id("req3").is_some());
}

#[test]
fn test_query_requests_by_tunnel() {
    let mut storage = RequestStorage::new(100);
    storage.store_request(create_test_request("req1", "tunnel1", "GET", "http://example1.com"));
    storage.store_request(create_test_request("req2", "tunnel2", "POST", "http://example2.com"));
    storage.store_request(create_test_request("req3", "tunnel1", "PUT", "http://example3.com"));

    let mut filter = QueryFilter::new();
    filter.tunnel_name = Some("tunnel1".to_string());
    let results = storage.query_requests(&filter);
    assert_eq!(results.len(), 2);
    assert!(results.iter().all(|r| r.request.tunnel_name == "tunnel1"));
}

#[test]
fn test_query_requests_by_method() {
    let mut storage = RequestStorage::new(100);
    storage.store_request(create_test_request("req1", "tunnel1", "GET", "http://example1.com"));
    storage.store_request(create_test_request("req2", "tunnel1", "POST", "http://example2.com"));
    storage.store_request(create_test_request("req3", "tunnel1", "GET", "http://example3.com"));

    let mut filter = QueryFilter::new();
    filter.method = Some("GET".to_string());
    let results = storage.query_requests(&filter);
    assert_eq!(results.len(), 2);
    assert!(results.iter().all(|r| r.request.method.to_uppercase() == "GET"));
}

#[test]
fn test_query_requests_by_status() {
    let mut storage = RequestStorage::new(100);
    storage.store_request(create_test_request("req1", "tunnel1", "GET", "http://example1.com"));
    storage.store_request(create_test_request("req2", "tunnel1", "POST", "http://example2.com"));
    storage.store_response(create_test_response("req1", 200));
    storage.store_response(create_test_response("req2", 404));

    let mut filter = QueryFilter::new();
    filter.status = Some(200);
    let results = storage.query_requests(&filter);
    assert_eq!(results.len(), 1);
    assert_eq!(results[0].request.id, "req1");
}

#[test]
fn test_query_requests_by_url_contains() {
    let mut storage = RequestStorage::new(100);
    storage.store_request(create_test_request("req1", "tunnel1", "GET", "http://example.com/api/users"));
    storage.store_request(create_test_request("req2", "tunnel1", "POST", "http://example.com/api/posts"));
    storage.store_request(create_test_request("req3", "tunnel1", "GET", "http://other.com/data"));

    let mut filter = QueryFilter::new();
    filter.url_contains = Some("/api/".to_string());
    let results = storage.query_requests(&filter);
    assert_eq!(results.len(), 2);
    assert!(results.iter().all(|r| r.request.url.contains("/api/")));
}

#[test]
fn test_clear_storage() {
    let mut storage = RequestStorage::new(100);
    storage.store_request(create_test_request("req1", "tunnel1", "GET", "http://example.com"));
    assert_eq!(storage.get_count(), 1);
    storage.clear();
    assert_eq!(storage.get_count(), 0);
    assert!(storage.get_request_by_id("req1").is_none());
}

fn timed_requests() -> (StoredRequest, StoredRequest, StoredRequest) {
    let base_time = now_ns();
    let mut req1 = create_test_request("req1", "tunnel1", "GET", "http://example.com/1");
    req1.timestamp = base_time;
    let mut req2 = create_test_request("req2", "tunnel1", "GET", "http://example.com/2");
    req2.timestamp = base_time + 60_000_000_000;
    let mut req3 = create_test_request("req3", "tunnel1", "GET", "http://example.com/3");
    req3.timestamp = base_time + 120_000_000_000;
    (req1, req2, req3)
}

#[test]
fn test_query_requests_sort_by_timestamp_asc() {
    let mut storage = RequestStorage::new(100);
    let (req1, req2, req3) = timed_requests();
    storage.store_request(req3);
    storage.store_request(req1);
    storage.store_request(req2);

    let mut filter = QueryFilter::new();
    filter.sort_direction = Some(SortDirection::Asc);
    let results = storage.query_requests(&filter);
    assert_eq!(results.len(), 3);
    assert_eq!(results[0].request.id, "req1");
    assert_eq!(results[1].request.id, "req2");
    assert_eq!(results[2].request.id, "req3");
}

#[test]
fn test_query_requests_sort_by_timestamp_desc() {
    let mut storage = RequestStorage::new(100);
    let (req1, req2, req3) = timed_requests();
    storage.store_request(req1);
    storage.store_request(req2);
    storage.store_request(req3);

    let mut filter = QueryFilter::new();
    filter.sort_direction = Some(SortDirection::Desc);
    let results = storage.query_requests(&filter);
    assert_eq!(results.len(), 3);
    assert_eq!(results[0].request.id, "req3");
    assert_eq!(results[1].request.id, "req2");
    assert_eq!(results[2].request.id, "req1");
}

#[test]
fn test_query_requests_default_sort_desc() {
    let mut storage = RequestStorage::new(100);
    let (req1, req2, _) = timed_requests();
    storage.store_request(req1);
    storage.store_request(req2);

    let filter = QueryFilter::new();
    let results = storage.query_requests(&filter);
    assert_eq!(results.len(), 2);
    assert_eq!(results[0].request.id, "req2");
    assert_eq!(results[1].request.id, "req1");
}

fn create_test_websocket_message(
    id: &str,
    tunnel_name: &str,
    upgrade_request_id: &str,
    direction: &str,
    message_type: WebSocketMessageType,
) -> StoredWebSocketMessage {
    StoredWebSocketMessage {
        id: id.to_string(),
        timestamp: now_ns(),
        tunnel_name: tunnel_name.to_string(),
        upgrade_request_id: upgrade_request_id.to_string(),
        direction: direction.to_string(),
        message_type,
        payload: b"test payload".to_vec(),
    }
}

fn three_messages(storage: &mut WebSocketMessageStorage) {
    storage.store_message(create_test_websocket_message("msg1", "tunnel1", "req1", "→", WebSocketMessageType::Text));
    storage.store_message(create_test_websocket_message("msg2", "tunnel2", "req1", "←", WebSocketMessageType::Binary));
    storage.store_message(create_test_websocket_message("msg3", "tunnel1", "req1", "→", WebSocketMessageType::Text));
}

#[test]
fn test_websocket_storage_new() {
    let storage = WebSocketMessageStorage::new(100);
    assert_eq!(storage.get_count(), 0);
}

#[test]
fn test_store_and_get_websocket_message() {
    let mut storage = WebSocketMessageStorage::new(100);
    storage.store_message(create_test_websocket_message("msg1", "tunnel1", "req1", "→", WebSocketMessageType::Text));
    assert_eq!(storage.get_count(), 1);
    let retrieved = storage.get_message_by_id("msg1");
    assert!(retrieved.is_some());
    assert_eq!(retrieved.unwrap().id, "msg1");
}

#[test]
fn test_websocket_max_messages_limit() {
    let mut storage = WebSocketMessageStorage::new(2);
    let msg1 = create_test_websocket_message("msg1", "tunnel1", "req1", "→", WebSocketMessageType::Text);
    let msg2 = create_test_websocket_message("msg2", "tunnel1", "req1", "←", WebSocketMessageType::Binary);
    let msg3 = create_test_websocket_message("msg3", "tunnel1", "req1", "→", WebSocketMessageType::Text);
    storage.store_message(msg1);
    assert_eq!(storage.get_count(), 1);
    storage.store_message(msg2);
    assert_eq!(storage.get_count(), 2);
    storage.store_message(msg3);
    assert_eq!(storage.get_count(), 2);
    assert!(storage.get_message_by_id("msg1").is_none());
    assert!(storage.get_message_by_id("msg2").is_some());
    assert!(storage.get_message_by_id("msg3").is_some());
}

#[test]
fn test_query_websocket_messages_by_tunnel() {
    let mut storage = WebSocketMessageStorage::new(100);
    three_messages(&mut storage);
    let mut filter = WebSocketMessageFilter::new();
    filter.tunnel_name = Some("tunnel1".to_string());
    let results = storage.query_messages(&filter);
    assert_eq!(results.len(), 2);
    assert!(results.iter().all(|m| m.tunnel_name == "tunnel1"));
}

#[test]
fn test_query_websocket_messages_by_direction() {
    let mut storage = WebSocketMessageStorage::new(100);
    storage.store_message(create_test_websocket_message("msg1", "tunnel1", "req1", "→", WebSocketMessageType::Text));
    storage.store_message(create_test_websocket_message("msg2", "tunnel1", "req1", "←", WebSocketMessageType::Binary));
    storage.store_message(create_test_websocket_message("msg3", "tunnel1", "req1", "→", WebSocketMessageType::Text));
    let mut filter = WebSocketMessageFilter::new();
    filter.direction = Some("→".to_string());
    let results = storage.query_messages(&filter);
    assert_eq!(results.len(), 2);
    assert!(results.iter().all(|m| m.direction == "→"));
}

#[test]
fn test_query_websocket_messages_by_type() {
    let mut storage = WebSocketMessageStorage::new(100);
    three_messages(&mut storage);
    let mut filter = WebSocketMessageFilter::new();
    filter.message_type = Some(WebSocketMessageType::Text);
    let results = storage.query_messages(&filter);
    assert_eq!(results.len(), 2);
    assert!(results.iter().all(|m| matches!(m.message_type, WebSocketMessageType::Text)));
}

#[test]
fn eviction_skips_entries_not_older_than_now() {
    let mut storage = RequestStorage::new(1);
    storage.store_request_at(request_at("a", 500), 100);
    storage.store_request_at(request_at("b", 50), 100);
    assert_eq!(storage.get_count(), 2);
    storage.store_request_at(request_at("c", 60), 100);
    assert!(storage.get_request_by_id("b").is_none());
    assert!(storage.get_request_by_id("a").is_some());
    assert!(storage.get_request_by_id("c").is_some());
}

#[test]
fn storing_an_existing_id_replaces_it() {
    let mut storage = RequestStorage::new(10);
    storage.store_request_at(request_at("a", 1), 10);
    let mut again = request_at("a", 2);
    again.url = "http://example.com/new".to_string();
    storage.store_request_at(again, 10);
    assert_eq!(storage.get_count(), 1);
    let found = storage.get_request_by_id("a").unwrap();
    assert_eq!(found.request.url, "http://example.com/new");
    assert_eq!(found.request.timestamp, 2);
}

#[test]
fn pending_requests_are_answered_in_order() {
    let mut storage = RequestStorage::new(10);
    storage.store_request_with_connection_at(request_at("r1", 1), "c", 5);
    storage.store_request_with_connection_at(request_at("x1", 2), "d", 5);
    storage.store_request_with_connection_at(request_at("r2", 3), "c", 5);
    assert_eq!(storage.get_next_pending_request_for_connection("c").unwrap().0, "r1");
    assert_eq!(storage.get_next_pending_request_for_connection("c").unwrap().0, "r2");
    assert!(storage.get_next_pending_request_for_connection("c").is_none());
    assert_eq!(storage.get_next_pending_request_for_connection("d").unwrap(), ("x1".to_string(), 2));
}

#[test]
fn pending_entry_of_an_evicted_request_is_dropped() {
    let mut storage = RequestStorage::new(1);
    storage.store_request_with_connection_at(request_at("r1", 1), "c", 5);
    storage.store_request_with_connection_at(request_at("r2", 2), "c", 5);
    assert!(storage.get_next_pending_request_for_connection("c").is_none());
    assert_eq!(storage.get_next_pending_request_for_connection("c").unwrap().0, "r2");
}

#[test]
fn response_for_unknown_request_is_not_stored() {
    let mut storage = RequestStorage::new(10);
    storage.store_request_at(request_at("a", 1), 10);
    assert!(storage.store_response(create_test_response("nope", 200)).is_none());
    assert!(storage.get_request_by_id("a").unwrap().response.is_none());
}

#[test]
fn query_filter_time_bounds_are_inclusive() {
    let mut storage = RequestStorage::new(10);
    storage.store_request_at(request_at("a", 10), 100);
    storage.store_request_at(request_at("b", 20), 100);
    storage.store_request_at(request_at("c", 30), 100);
    let mut filter = QueryFilter::new();
    filter.since = Some(10);
    filter.until = Some(20);
    let ids: Vec<String> = storage.query_requests(&filter).into_iter().map(|e| e.request.id).collect();
    assert_eq!(ids, vec!["b".to_string(), "a".to_string()]);
}

#[test]
fn header_insert_replaces_value_of_same_name() {
    let mut h = Headers::new();
    h.insert("A".to_string(), "1".to_string());
    h.insert("B".to_string(), "2".to_string());
    h.insert("A".to_string(), "3".to_string());
    assert_eq!(h.len(), 2);
    assert_eq!(h.get("A"), Some(&"3".to_string()));
    assert_eq!(h.entries[0].0, "A");
    assert!(h.get("C").is_none());
}

#[test]
fn requests_less_than_a_microsecond_apart_are_ordered_by_time() {
    let mut storage = RequestStorage::new(10);
    let base = now_ns() - 10_000;
    storage.store_request(request_at("later", base + 500));
    storage.store_request(request_at("earlier", base));
    let newest_first = storage.query_requests(&QueryFilter::new());
    assert_eq!(newest_first[0].request.id, "later");
    assert_eq!(newest_first[1].request.id, "earlier");
}
