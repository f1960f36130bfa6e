use base64::Engine as _;
use chrono::Utc;
use tunneldesk::cloudflared::{administrator_script, choose_launcher, is_root_output, shell_escape, Launcher};
use tunneldesk::config::{CloudflareConfig, Config, TunnelConfig};
use tunneldesk::gui::{gui_port, make_loading_html};
use tunneldesk::storage::{Headers, QueryFilter, RequestExchange, RequestStorage, StoredRequest, StoredResponse, StoredWebSocketMessage, WebSocketMessageType};
use tunneldesk::sync::SyncReport;
use tunneldesk::web_server::{
    bytes_to_display,
    cloudflare_status, create_tunnel, delete_tunnel, exchange_to_base64, prepare_replay, replayed_exchange,
    request_to_base64, response_to_base64, should_push_exchange, sync_report_response, tunnel_info_from_config, update_tunnel,
    websocket_message_to_base64, CloudflareChange, CreateTunnelRequest, ReplayRequestPayload, UpdateTunnelRequest,
};

fn encode(b: &[u8]) -> String {
    base64::engine::general_purpose::STANDARD.encode(b)
}

fn make_tunnels() -> Vec<TunnelConfig> {
    vec![
        TunnelConfig {
            name: "tunnel-a".to_string(),
            domain: "a.example.com".to_string(),
            socket_path: "/tmp/a.sock".to_string(),
            target_port: 3000,
            enabled: true,
        },
        TunnelConfig {
            name: "tunnel-b".to_string(),
            domain: "b.example.com".to_string(),
            socket_path: "/tmp/b.sock".to_string(),
            target_port: 3001,
            enabled: true,
        },
    ]
}

fn make_stored_request(id: &str, tunnel: &str, method: &str, url: &str) -> StoredRequest {
    StoredRequest {
        id: id.to_string(),
        timestamp: Utc::now().timestamp_nanos_opt().unwrap(),
        tunnel_name: tunnel.to_string(),
        method: method.to_string(),
        url: url.to_string(),
        headers: Headers::new(),
        body: b"request body".to_vec(),
        raw_request: b"GET / HTTP/1.1\r\n\r\n".to_vec(),
        replayed: false,
    }
}

fn make_stored_response(request_id: &str, status: u16) -> StoredResponse {
    StoredResponse {
        request_id: request_id.to_string(),
        timestamp: Utc::now().timestamp_nanos_opt().unwrap(),
        status,
        headers: Headers::new(),
        body: b"response body".to_vec(),
        raw_response: b"HTTP/1.1 200 OK\r\n\r\n".to_vec(),
        response_time_us: Some(42_000),
    }
}

fn replay(tunnel: &str, method: &str, body: &str) -> ReplayRequestPayload {
    ReplayRequestPayload {
        tunnel_name: tunnel.to_string(),
        method: method.to_string(),
        url: "/api".to_string(),
        headers: Headers::new(),
        body: body.to_string(),
    }
}

#[test]
fn test_request_to_base64_encodes_body_and_raw() {
    let req = make_stored_request("r1", "tunnel-a", "GET", "/path");
    let out = request_to_base64(&req);
    assert_eq!(out.id, "r1");
    assert_eq!(out.method, "GET");
    assert_eq!(out.url, "/path");
    assert_eq!(out.body, encode(b"request body"));
    assert_eq!(out.raw_request, encode(b"GET / HTTP/1.1\r\n\r\n"));
}

#[test]
fn test_response_to_base64_encodes_body_and_raw() {
    let resp = make_stored_response("r1", 200);
    let out = response_to_base64(&resp);
    assert_eq!(out.request_id, "r1");
    assert_eq!(out.status, 200);
    assert_eq!(out.body, encode(b"response body"));
    assert_eq!(out.raw_response, encode(b"HTTP/1.1 200 OK\r\n\r\n"));
    assert_eq!(out.response_time_us, Some(42_000));
}

#[test]
fn test_websocket_message_to_base64_encodes_payload() {
    let msg = StoredWebSocketMessage {
        id: "m1".to_string(),
        timestamp: Utc::now().timestamp_nanos_opt().unwrap(),
        tunnel_name: "tunnel-a".to_string(),
        upgrade_request_id: "r1".to_string(),
        direction: "→".to_string(),
        message_type: WebSocketMessageType::Text,
        payload: b"hello ws".to_vec(),
    };
    let out = websocket_message_to_base64(&msg);
    assert_eq!(out.id, "m1");
    assert_eq!(out.direction, "→");
    assert_eq!(out.payload, encode(b"hello ws"));
    assert_eq!(out.payload, "aGVsbG8gd3M=");
}

#[test]
fn test_exchange_to_base64_without_response() {
    let exchange = RequestExchange { request: make_stored_request("r1", "tunnel-a", "POST", "/submit"), response: None };
    let out = exchange_to_base64(&exchange);
    assert_eq!(out.request.id, "r1");
    assert!(out.response.is_none());
}

#[test]
fn test_exchange_to_base64_with_response() {
    let exchange = RequestExchange {
        request: make_stored_request("r1", "tunnel-a", "GET", "/"),
        response: Some(make_stored_response("r1", 404)),
    };
    let out = exchange_to_base64(&exchange);
    assert!(out.response.is_some());
    assert_eq!(out.response.unwrap().status, 404);
}

#[test]
fn exchanges_are_pushed_by_the_subscription_filter() {
    let exchange = RequestExchange { request: make_stored_request("r1", "tunnel-a", "GET", "/x"), response: None };
    assert!(should_push_exchange(&None, &exchange));
    let mut other = QueryFilter::new();
    other.tunnel_name = Some("tunnel-b".to_string());
    assert!(!should_push_exchange(&Some(other), &exchange));
    let mut same = QueryFilter::new();
    same.tunnel_name = Some("tunnel-a".to_string());
    assert!(should_push_exchange(&Some(same), &exchange));
}

#[test]
fn test_query_filter_matches_no_criteria_always_true() {
    let exchange = RequestExchange { request: make_stored_request("r1", "tunnel-a", "GET", "/"), response: None };
    assert!(QueryFilter::new().matches(&exchange));
}

#[test]
fn test_query_filter_matches_tunnel_name() {
    let exchange = RequestExchange { request: make_stored_request("r1", "tunnel-a", "GET", "/"), response: None };
    let mut matching = QueryFilter::new();
    matching.tunnel_name = Some("tunnel-a".to_string());
    assert!(matching.matches(&exchange));
    let mut non_matching = QueryFilter::new();
    non_matching.tunnel_name = Some("tunnel-b".to_string());
    assert!(!non_matching.matches(&exchange));
}

#[test]
fn test_query_filter_matches_method_case_insensitive() {
    let exchange = RequestExchange { request: make_stored_request("r1", "tunnel-a", "GET", "/"), response: None };
    let mut filter = QueryFilter::new();
    filter.method = Some("get".to_string());
    assert!(filter.matches(&exchange));
}

#[test]
fn test_query_filter_matches_url_contains() {
    let exchange = RequestExchange { request: make_stored_request("r1", "tunnel-a", "GET", "/api/users"), response: None };
    let mut matching = QueryFilter::new();
    matching.url_contains = Some("/api/".to_string());
    assert!(matching.matches(&exchange));
    let mut non_matching = QueryFilter::new();
    non_matching.url_contains = Some("/other/".to_string());
    assert!(!non_matching.matches(&exchange));
}

#[test]
fn test_query_filter_matches_status_requires_response() {
    let no_resp = RequestExchange { request: make_stored_request("r1", "tunnel-a", "GET", "/"), response: None };
    let mut filter = QueryFilter::new();
    filter.status = Some(200);
    assert!(!filter.matches(&no_resp));
    let with_resp = RequestExchange {
        request: make_stored_request("r1", "tunnel-a", "GET", "/"),
        response: Some(make_stored_response("r1", 200)),
    };
    assert!(filter.matches(&with_resp));
}

#[test]
fn test_query_filter_matches_time_range() {
    let now = Utc::now().timestamp_nanos_opt().unwrap();
    let mut req = make_stored_request("r1", "tunnel-a", "GET", "/");
    req.timestamp = now;
    let exchange = RequestExchange { request: req, response: None };
    let mut in_range = QueryFilter::new();
    in_range.since = Some(now - 1_000_000_000);
    in_range.until = Some(now + 1_000_000_000);
    assert!(in_range.matches(&exchange));
    let mut too_late = QueryFilter::new();
    too_late.since = Some(now + 1_000_000_000);
    assert!(!too_late.matches(&exchange));
    let mut too_early = QueryFilter::new();
    too_early.until = Some(now - 1_000_000_000);
    assert!(!too_early.matches(&exchange));
}

#[test]
fn test_handle_query_requests_returns_matching() {
    let mut storage = RequestStorage::new(100);
    storage.store_request(make_stored_request("r1", "tunnel-a", "GET", "/api"));
    let mut filter = QueryFilter::new();
    filter.tunnel_name = Some("tunnel-a".to_string());
    let exchanges: Vec<_> = storage.query_requests(&filter).iter().map(exchange_to_base64).collect();
    assert_eq!(exchanges.len(), 1);
    assert_eq!(exchanges[0].request.id, "r1");
}

#[test]
fn test_handle_query_requests_empty_when_no_match() {
    let storage = RequestStorage::new(100);
    let mut filter = QueryFilter::new();
    filter.tunnel_name = Some("no-such-tunnel".to_string());
    let exchanges: Vec<_> = storage.query_requests(&filter).iter().map(exchange_to_base64).collect();
    assert!(exchanges.is_empty());
}

#[test]
fn test_handle_list_tunnels_returns_all_tunnels() {
    let tunnels = make_tunnels();
    let infos: Vec<_> = tunnels.iter().map(tunnel_info_from_config).collect();
    assert_eq!(infos.len(), 2);
    assert_eq!(infos[0].name, "tunnel-a");
    assert_eq!(infos[0].domain, "a.example.com");
    assert_eq!(infos[0].destination, 3000);
    assert!(infos[0].enabled);
    assert_eq!(infos[1].name, "tunnel-b");
    assert_eq!(infos[1].destination, 3001);
}

#[test]
fn test_handle_create_tunnel_adds_tunnel() {
    let mut tunnels = make_tunnels();
    let req = CreateTunnelRequest {
        name: "new-tunnel".to_string(),
        domain: "new.example.com".to_string(),
        socket_path: Some("/tmp/new.sock".to_string()),
        target_port: 9999,
    };
    let info = create_tunnel(&mut tunnels, req).unwrap();
    assert_eq!(info.name, "new-tunnel");
    assert_eq!(info.domain, "new.example.com");
    assert_eq!(info.destination, 9999);
    assert!(info.enabled);
    assert_eq!(tunnels.len(), 3);
    assert!(tunnels.iter().any(|t| t.name == "new-tunnel"));
}

#[test]
fn test_handle_create_tunnel_rejects_duplicate_name() {
    let mut tunnels = make_tunnels();
    let req = CreateTunnelRequest {
        name: "tunnel-a".to_string(),
        domain: "other.example.com".to_string(),
        socket_path: None,
        target_port: 7777,
    };
    let err = create_tunnel(&mut tunnels, req).err().unwrap();
    assert_eq!(err, "A tunnel named 'tunnel-a' already exists");
    assert_eq!(tunnels.len(), 2);
}

#[test]
fn test_handle_create_tunnel_generates_socket_path() {
    let mut tunnels = make_tunnels();
    let req = CreateTunnelRequest {
        name: "auto-path".to_string(),
        domain: "auto.example.com".to_string(),
        socket_path: None,
        target_port: 5555,
    };
    assert!(create_tunnel(&mut tunnels, req).is_ok());
    let t = tunnels.iter().find(|t| t.name == "auto-path").unwrap();
    assert_eq!(t.socket_path, "/tmp/tunneldesk-auto-path.sock");
}

fn update(name: &str) -> UpdateTunnelRequest {
    UpdateTunnelRequest { name: name.to_string(), domain: None, socket_path: None, target_port: None, enabled: None }
}

#[test]
fn test_handle_update_tunnel_changes_domain() {
    let mut tunnels = make_tunnels();
    let mut req = update("tunnel-a");
    req.domain = Some("updated.example.com".to_string());
    let u = update_tunnel(&mut tunnels, req).unwrap();
    assert_eq!(u.info.domain, "updated.example.com");
    assert_eq!(u.old_domain, "a.example.com");
    assert_eq!(u.cloudflare, CloudflareChange::Update);
    assert!(!u.stop);
    let t = tunnels.iter().find(|t| t.name == "tunnel-a").unwrap();
    assert_eq!(t.domain, "updated.example.com");
}

#[test]
fn test_handle_update_tunnel_disables_tunnel() {
    let mut tunnels = make_tunnels();
    let mut req = update("tunnel-a");
    req.enabled = Some(false);
    let u = update_tunnel(&mut tunnels, req).unwrap();
    assert!(!u.info.enabled);
    assert_eq!(u.cloudflare, CloudflareChange::Remove);
    assert!(u.stop);
    let t = tunnels.iter().find(|t| t.name == "tunnel-a").unwrap();
    assert!(!t.enabled);
}

#[test]
fn test_handle_update_tunnel_not_found() {
    let mut tunnels = make_tunnels();
    let err = update_tunnel(&mut tunnels, update("ghost")).err().unwrap();
    assert_eq!(err, "Tunnel 'ghost' not found");
}

#[test]
fn reenabling_a_tunnel_adds_it_back() {
    let mut tunnels = make_tunnels();
    tunnels[1].enabled = false;
    let mut req = update("tunnel-b");
    req.enabled = Some(true);
    req.target_port = Some(4000);
    let u = update_tunnel(&mut tunnels, req).unwrap();
    assert_eq!(u.cloudflare, CloudflareChange::Add);
    assert!(!u.stop);
    assert_eq!(tunnels[1].target_port, 4000);
    let u = update_tunnel(&mut tunnels, update("tunnel-b")).unwrap();
    assert_eq!(u.cloudflare, CloudflareChange::Keep);
}

#[test]
fn test_handle_delete_tunnel_removes_tunnel() {
    let mut tunnels = make_tunnels();
    let removed = delete_tunnel(&mut tunnels, "tunnel-a").unwrap();
    assert_eq!(removed.name, "tunnel-a");
    assert_eq!(tunnels.len(), 1);
    assert!(tunnels.iter().all(|t| t.name != "tunnel-a"));
}

#[test]
fn test_handle_delete_tunnel_not_found() {
    let mut tunnels = make_tunnels();
    assert!(delete_tunnel(&mut tunnels, "ghost").is_err());
    assert_eq!(tunnels.len(), 2);
}

#[test]
fn test_handle_get_cloudflare_status_not_configured() {
    let status = cloudflare_status(&None, true);
    assert!(!status.configured);
    assert!(status.tunnel_id.is_none());
    assert!(!status.service_running);
}

#[test]
fn test_handle_get_cloudflare_status_configured() {
    let cf = Some(CloudflareConfig {
        api_token: "tok".to_string(),
        account_id: "acc".to_string(),
        zone_id: "zone".to_string(),
        tunnel_id: Some("tid-123".to_string()),
        tunnel_name: "myapp".to_string(),
        tunnel_token: Some("token".to_string()),
    });
    let status = cloudflare_status(&cf, false);
    assert!(status.configured);
    assert_eq!(status.tunnel_id.as_deref(), Some("tid-123"));
    assert_eq!(status.tunnel_name.as_deref(), Some("myapp"));
}

#[test]
fn test_handle_replay_request_tunnel_not_found() {
    let err = prepare_replay(&make_tunnels(), &replay("nonexistent", "GET", "")).err().unwrap();
    assert!(err.contains("not found"));
    assert_eq!(err, "Tunnel 'nonexistent' not found");
}

#[test]
fn test_handle_replay_request_invalid_base64_body() {
    let err = prepare_replay(&make_tunnels(), &replay("tunnel-a", "POST", "not valid base64!!!")).err().unwrap();
    assert!(err.contains("Invalid base64"));
}

#[test]
fn test_handle_replay_request_invalid_method() {
    let err = prepare_replay(&make_tunnels(), &replay("tunnel-a", "NOTAMETHOD\x00", "")).err().unwrap();
    assert_eq!(err, "Invalid HTTP method: NOTAMETHOD\x00");
}

#[test]
fn replay_is_sent_to_the_local_port_without_managed_headers() {
    let mut req = replay("tunnel-b", "POST", "e30=");
    req.url = "/submit?x=1".to_string();
    req.headers.insert("Host".to_string(), "public.example.com".to_string());
    req.headers.insert("Content-Type".to_string(), "application/json".to_string());
    req.headers.insert("Content-Length".to_string(), "2".to_string());
    req.headers.insert("Transfer-Encoding".to_string(), "chunked".to_string());
    let plan = prepare_replay(&make_tunnels(), &req).unwrap();
    assert_eq!(plan.url, "http://127.0.0.1:3001/submit?x=1");
    assert_eq!(plan.method, "POST");
    assert_eq!(plan.body, b"{}".to_vec());
    assert_eq!(plan.headers, vec![("Content-Type".to_string(), "application/json".to_string())]);
}

#[test]
fn replaying_what_the_browser_was_shown_sends_the_captured_body() {
    let mut captured = make_stored_request("r9", "tunnel-a", "PUT", "/blob");
    captured.body = vec![0, 255, 10, 13, 128, 7];
    let shown = request_to_base64(&captured);
    let plan = prepare_replay(&make_tunnels(), &replay("tunnel-a", "PUT", &shown.body)).unwrap();
    assert_eq!(plan.body, captured.body);
}

#[test]
fn replayed_exchange_is_marked_and_linked() {
    let req = replay("tunnel-a", "GET", "");
    let exchange = replayed_exchange("id-1".to_string(), 77, req, vec![1, 2], 201, Headers::new(), b"ok".to_vec(), 1500);
    assert!(exchange.request.replayed);
    assert!(exchange.request.raw_request.is_empty());
    assert_eq!(exchange.request.timestamp, 77);
    let response = exchange.response.unwrap();
    assert_eq!(response.request_id, "id-1");
    assert_eq!(response.status, 201);
    assert_eq!(response.response_time_us, Some(1500));
}

#[test]
fn sync_report_is_passed_through() {
    let mut report = SyncReport::default();
    report.added.push("a".to_string());
    report.errors.push("e".to_string());
    let resp = sync_report_response(report);
    assert_eq!(resp.added, vec!["a".to_string()]);
    assert_eq!(resp.errors, vec!["e".to_string()]);
    assert!(resp.removed.is_empty());
}

#[test]
fn privileged_launcher_choice() {
    assert_eq!(choose_launcher(true, true), Launcher::Direct);
    assert_eq!(choose_launcher(false, true), Launcher::Pkexec);
    assert_eq!(choose_launcher(false, false), Launcher::Sudo);
}

#[test]
fn root_is_recognised_from_id_output() {
    assert!(is_root_output(b"0\n"));
    assert!(!is_root_output(b"1000\n"));
    assert!(!is_root_output(b"\xff0"));
    assert!(!is_root_output(b""));
}

#[test]
fn shell_escaping_for_the_administrator_dialog() {
    assert_eq!(shell_escape(r#"a"b\c`d"#), r#""a\"b\\c\`d""#);
    assert_eq!(
        administrator_script("cloudflared", &["service", "install", "tok"]),
        r#"do shell script ""cloudflared" "service" "install" "tok"" with administrator privileges"#
    );
    assert_eq!(administrator_script("ls", &[]), r#"do shell script ""ls"" with administrator privileges"#);
}

#[test]
fn loading_page_polls_the_local_port() {
    let html = make_loading_html(8081);
    assert!(html.starts_with("<!DOCTYPE html>"));
    assert!(html.contains("var url = 'http://127.0.0.1:8081';"));
    assert!(html.ends_with("</html>"));
}

#[test]
fn bytes_to_display_utf8() {
    assert_eq!(bytes_to_display(b"hello"), "hello");
}

#[test]
fn bytes_to_display_binary() {
    let result = bytes_to_display(&[0xff, 0xfe, 0x00]);
    assert!(result.starts_with("<binary:"));
    assert!(result.contains("3 bytes"));
}

#[test]
fn splash_page_port_comes_from_the_config_or_the_default() {
    let mut config = Config::default_config();
    config.gui.port = 9123;
    assert_eq!(gui_port(Some(&config)), 9123);
    assert_eq!(gui_port(None), 8081);
}
