use tunneldesk::sync_steps::{removal_step, sync_step, RemovalAction, RemovalEvent, RemovalPhase, SyncAction, SyncEvent, SyncPhase};
use tunneldesk::capture::{connection_upgrade_header, websocket_header, LogLevel};
use tunneldesk::proxy::content_length_in_line;
use tunneldesk::setup::{cloudflare_setup_step, SetupAction, SetupEvent, SetupState};
use tunneldesk::storage::Headers;
use tunneldesk::sync::{push_failure, record_dns_outcome, removal_outcome, SyncReport};
use tunneldesk::traffic_log::{
    frame_log_lines, headers_log_text, raw_log_line, request_log_lines, response_log_lines,
};
use tunneldesk::web_server::managed_header;

fn chars(s: &str) -> Vec<char> {
    s.chars().collect()
}

#[test]
fn lowered_level_names() {
    assert_eq!(LogLevel::from_lowercase(&chars("off")), LogLevel::Off);
    assert_eq!(LogLevel::from_lowercase(&chars("full")), LogLevel::Full);
    assert_eq!(LogLevel::from_lowercase(&chars("basic")), LogLevel::Basic);
    assert_eq!(LogLevel::from_lowercase(&chars("OFF")), LogLevel::Basic);
    assert_eq!(LogLevel::from_lowercase(&chars("verbose")), LogLevel::Basic);
}

#[test]
fn lowered_upgrade_headers() {
    assert!(websocket_header(&chars("upgrade"), &chars("websocket")));
    assert!(!websocket_header(&chars("upgrade"), &chars("h2c")));
    assert!(!websocket_header(&chars("Upgrade"), &chars("websocket")));
    assert!(connection_upgrade_header(&chars("connection"), &chars("keep-alive, upgrade")));
    assert!(!connection_upgrade_header(&chars("connection"), &chars("keep-alive")));
}

#[test]
fn lowered_content_length_line() {
    assert_eq!(content_length_in_line(&chars("Content-Length: 42"), &chars("content-length: 42")), Some(Some(42)));
    assert_eq!(content_length_in_line(&chars("Content-Length: x"), &chars("content-length: x")), Some(None));
    assert_eq!(content_length_in_line(&chars("Host: a"), &chars("host: a")), None);
}

#[test]
fn lowered_managed_header_names() {
    assert!(managed_header(&chars("host")));
    assert!(managed_header(&chars("content-length")));
    assert!(managed_header(&chars("transfer-encoding")));
    assert!(!managed_header(&chars("content-type")));
}

#[test]
fn setup_creates_a_tunnel_only_without_an_id() {
    let (s, a) = cloudflare_setup_step(SetupState::Start, SetupEvent::Begin { has_tunnel_id: false });
    assert_eq!((s, a), (SetupState::CreatingTunnel, SetupAction::CreateTunnel));
    let (s, a) = cloudflare_setup_step(s, SetupEvent::TunnelCreated { ok: true });
    assert_eq!((s, a), (SetupState::FetchingToken, SetupAction::FetchToken));
    let (s, a) = cloudflare_setup_step(s, SetupEvent::TokenFetched { ok: true });
    assert_eq!((s, a), (SetupState::SavingCredentials, SetupAction::SaveCredentials));
    let (s, a) = cloudflare_setup_step(s, SetupEvent::CredentialsSaved { ok: true });
    assert_eq!((s, a), (SetupState::CheckingInstalled, SetupAction::CheckInstalled));
    let (s, a) = cloudflare_setup_step(SetupState::Start, SetupEvent::Begin { has_tunnel_id: true });
    assert_eq!((s, a), (SetupState::CheckingInstalled, SetupAction::CheckInstalled));
}

#[test]
fn setup_gives_up_on_a_failed_tunnel_step() {
    let (s, a) = cloudflare_setup_step(SetupState::CreatingTunnel, SetupEvent::TunnelCreated { ok: false });
    assert_eq!((s, a), (SetupState::Abandoned, SetupAction::GiveUp));
    let (_, a) = cloudflare_setup_step(SetupState::FetchingToken, SetupEvent::TokenFetched { ok: false });
    assert_eq!(a, SetupAction::GiveUp);
    let (_, a) = cloudflare_setup_step(SetupState::SavingCredentials, SetupEvent::CredentialsSaved { ok: false });
    assert_eq!(a, SetupAction::GiveUp);
}

#[test]
fn setup_installs_only_when_installed_and_stopped() {
    let (s, a) = cloudflare_setup_step(SetupState::CheckingInstalled, SetupEvent::InstalledChecked { installed: false });
    assert_eq!((s, a), (SetupState::Syncing, SetupAction::Sync { not_installed: true, install_failed: false }));
    let (s, a) = cloudflare_setup_step(SetupState::CheckingInstalled, SetupEvent::InstalledChecked { installed: true });
    assert_eq!((s, a), (SetupState::CheckingRunning, SetupAction::CheckRunning));
    let (_, a) = cloudflare_setup_step(s, SetupEvent::RunningChecked { running: true });
    assert_eq!(a, SetupAction::Sync { not_installed: false, install_failed: false });
    let (s, a) = cloudflare_setup_step(s, SetupEvent::RunningChecked { running: false });
    assert_eq!((s, a), (SetupState::Installing, SetupAction::InstallService));
    let (s, a) = cloudflare_setup_step(s, SetupEvent::InstallFinished { ok: false });
    assert_eq!((s, a), (SetupState::Syncing, SetupAction::Sync { not_installed: false, install_failed: true }));
    let (s, a) = cloudflare_setup_step(s, SetupEvent::SyncFinished);
    assert_eq!((s, a), (SetupState::Ready, SetupAction::Finish));
    let (s2, a) = cloudflare_setup_step(s, SetupEvent::SyncFinished);
    assert_eq!((s2, a), (SetupState::Ready, SetupAction::Ignore));
}

#[test]
fn removal_reports_hosts_or_partial_failure() {
    let hosts = vec!["a.example.com".to_string(), "b.example.com".to_string()];
    assert_eq!(removal_outcome(&hosts, &vec![]), Ok(hosts.clone()));
    assert_eq!(removal_outcome(&[], &vec![]), Ok(vec![]));
    let errors = vec!["delete_dns_cname(a.example.com): boom".to_string(), "x: y".to_string()];
    assert_eq!(
        removal_outcome(&hosts, &errors),
        Err("partial failure removing hosts: delete_dns_cname(a.example.com): boom; x: y".to_string())
    );
}

#[test]
fn sync_report_records_outcomes() {
    let mut report = SyncReport::default();
    record_dns_outcome(&mut report, "a.example.com".to_string(), None);
    record_dns_outcome(&mut report, "b.example.com".to_string(), Some("denied".to_string()));
    push_failure(&mut report.errors, "put_tunnel_config", "timeout");
    assert_eq!(report.added, vec!["a.example.com".to_string()]);
    assert_eq!(
        report.errors,
        vec!["create_dns_cname(b.example.com): denied".to_string(), "put_tunnel_config: timeout".to_string()]
    );
}

fn two_headers() -> Headers {
    let mut h = Headers::new();
    h.insert("user-agent".to_string(), "curl/7.68.0".to_string());
    h.insert("accept".to_string(), "*/*".to_string());
    h
}

#[test]
fn headers_are_logged_as_a_brace_list() {
    assert_eq!(headers_log_text(&two_headers()), "{user-agent: curl/7.68.0, accept: */*}");
    assert_eq!(headers_log_text(&Headers::new()), "{}");
}

#[test]
fn request_log_lines_per_level() {
    let h = two_headers();
    assert!(request_log_lines(LogLevel::Off, "webapp", "GET", "/api/users", 573, &h, b"", 10).is_empty());
    assert_eq!(
        request_log_lines(LogLevel::Basic, "webapp", "GET", "/api/users", 573, &h, b"", 10),
        vec!["→ GET /api/users [webapp]".to_string()]
    );
    assert_eq!(
        request_log_lines(LogLevel::Full, "webapp", "GET", "/api/users", 573, &h, b"hello world", 5),
        vec![
            "[webapp] → GET /api/users - 573 bytes".to_string(),
            "[webapp] Headers: {user-agent: curl/7.68.0, accept: */*}".to_string(),
            "[webapp] Body: hello...".to_string(),
        ]
    );
}

#[test]
fn response_and_frame_log_lines() {
    let h = Headers::new();
    assert_eq!(
        response_log_lines(LogLevel::Basic, "webapp", 200, 129, &h, b"{}", 10),
        vec!["← 200 [webapp]".to_string()]
    );
    assert_eq!(
        response_log_lines(LogLevel::Full, "webapp", 200, 129, &h, b"{}", 10)[0],
        "[webapp] ← 200 - 129 bytes"
    );
    assert_eq!(frame_log_lines(LogLevel::Basic, "webapp", "→", 1, b"hi", 10), vec!["WS → [webapp]".to_string()]);
    assert_eq!(
        frame_log_lines(LogLevel::Full, "webapp", "←", 1, b"world", 10),
        vec!["[webapp] WS ← - opcode: 1, payload: world".to_string()]
    );
    assert_eq!(raw_log_line("webapp", 12, "→"), "Raw message [webapp]: 12 bytes - direction: →");
}

#[test]
fn sync_calls_in_order_and_stops_after_failed_fetch_or_push() {
    let (p, a) = sync_step(SyncPhase::Start, SyncEvent::Begin);
    assert_eq!(a, SyncAction::FetchConfig);
    let (_, a) = sync_step(p, SyncEvent::Fetched { ok: false, to_add: 3 });
    assert_eq!(a, SyncAction::Finish);
    let (p, a) = sync_step(p, SyncEvent::Fetched { ok: true, to_add: 2 });
    assert_eq!(a, SyncAction::CreateDns { index: 0 });
    let (p, a) = sync_step(p, SyncEvent::DnsCreated);
    assert_eq!(a, SyncAction::CreateDns { index: 1 });
    let (p, a) = sync_step(p, SyncEvent::DnsCreated);
    assert_eq!((p, a), (SyncPhase::Pushing, SyncAction::PushConfig));
    let (_, a) = sync_step(p, SyncEvent::Pushed { ok: false });
    assert_eq!(a, SyncAction::Finish);
    let (p, a) = sync_step(p, SyncEvent::Pushed { ok: true });
    assert_eq!(a, SyncAction::UpdateCacheRule);
    let (p, a) = sync_step(p, SyncEvent::CacheUpdated);
    assert_eq!((p, a), (SyncPhase::Done, SyncAction::Finish));
    let (_, a) = sync_step(SyncPhase::Fetching, SyncEvent::Fetched { ok: true, to_add: 0 });
    assert_eq!(a, SyncAction::PushConfig);
}

#[test]
fn removal_answers_at_once_without_hosts_and_fails_on_a_failed_call() {
    let (_, a) = removal_step(RemovalPhase::Start, RemovalEvent::Begin { hosts: 0 });
    assert_eq!(a, RemovalAction::Answer);
    let (p, a) = removal_step(RemovalPhase::Start, RemovalEvent::Begin { hosts: 2 });
    assert_eq!(a, RemovalAction::FetchConfig);
    let (_, a) = removal_step(p, RemovalEvent::Fetched { ok: false });
    assert_eq!(a, RemovalAction::Fail);
    let (p, a) = removal_step(p, RemovalEvent::Fetched { ok: true });
    assert_eq!(a, RemovalAction::ListDns);
    let (p, a) = removal_step(p, RemovalEvent::Listed { ok: true, deletions: 1 });
    assert_eq!(a, RemovalAction::DeleteDns { index: 0 });
    let (p, a) = removal_step(p, RemovalEvent::Deleted);
    assert_eq!(a, RemovalAction::PushConfig);
    let (p, a) = removal_step(p, RemovalEvent::Pushed { ok: true });
    assert_eq!(a, RemovalAction::UpdateCacheRule);
    let (_, a) = removal_step(p, RemovalEvent::CacheUpdated);
    assert_eq!(a, RemovalAction::Answer);
}
