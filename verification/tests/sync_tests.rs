use tunneldesk::cloudflare::{DnsRecord, IngressRule};
use tunneldesk::config::{CloudflareConfig, Config, TunnelConfig};
use tunneldesk::sync::{
    build_sync_ingress, dns_records_to_delete, enabled_tunnels, find_dns_record, find_unknown_hosts, hosts_to_add,
    ingress_hostnames, ingress_with_added, ingress_with_updated, ingress_without_domain, ingress_without_hosts,
    set_tunnel_credentials, SyncReport,
};

fn make_tunnel(domain: &str, socket: &str) -> TunnelConfig {
    TunnelConfig {
        name: domain.to_string(),
        domain: domain.to_string(),
        socket_path: socket.to_string(),
        target_port: 3000,
        enabled: true,
    }
}

fn hostnames(ingress: &[IngressRule]) -> Vec<Option<&str>> {
    ingress.iter().map(|r| r.hostname.as_deref()).collect()
}

fn record(id: &str, name: &str) -> DnsRecord {
    DnsRecord {
        id: id.to_string(),
        name: name.to_string(),
        record_type: "CNAME".to_string(),
        content: "t.cfargotunnel.com".to_string(),
    }
}

#[test]
fn test_sync_report_default() {
    let report = SyncReport::default();
    assert!(report.added.is_empty());
    assert!(report.removed.is_empty());
    assert!(report.unknown_hosts.is_empty());
    assert!(report.errors.is_empty());
}

#[test]
fn test_ingress_rule_catch_all_service() {
    let rule = IngressRule::catch_all();
    assert_eq!(rule.service, "http_status:404");
    assert!(rule.hostname.is_none());
}

#[test]
fn test_ingress_rule_unix_socket_service() {
    let rule = IngressRule::unix_socket("app.example.com", "/tmp/app.sock");
    assert_eq!(rule.service, "unix:/tmp/app.sock");
    assert_eq!(rule.hostname.as_deref(), Some("app.example.com"));
}

#[test]
fn test_build_sync_ingress_preserves_unknown_hosts() {
    let desired_tunnel = make_tunnel("keep.example.com", "/tmp/keep.sock");
    let desired = vec![&desired_tunnel];
    let current_ingress = vec![
        IngressRule::unix_socket("keep.example.com", "/tmp/keep.sock"),
        IngressRule::unix_socket("ghost.example.com", "/tmp/ghost.sock"),
        IngressRule::catch_all(),
    ];
    let unknown_hosts = vec!["ghost.example.com".to_string()];
    let ingress = build_sync_ingress(&desired, &current_ingress, &unknown_hosts);
    let hostnames = hostnames(&ingress);
    assert!(hostnames.contains(&Some("keep.example.com")), "desired host must be present");
    assert!(hostnames.contains(&Some("ghost.example.com")), "unknown host must be preserved");
    assert!(hostnames.contains(&None), "catch-all must be present");
}

#[test]
fn test_build_sync_ingress_excludes_disabled_tunnels() {
    let enabled = make_tunnel("active.example.com", "/tmp/active.sock");
    let desired = vec![&enabled];
    let current_ingress = vec![IngressRule::unix_socket("active.example.com", "/tmp/active.sock"), IngressRule::catch_all()];
    let ingress = build_sync_ingress(&desired, &current_ingress, &[]);
    assert_eq!(hostnames(&ingress), vec![Some("active.example.com"), None]);
}

#[test]
fn test_build_sync_ingress_no_unknowns() {
    let t1 = make_tunnel("a.example.com", "/tmp/a.sock");
    let t2 = make_tunnel("b.example.com", "/tmp/b.sock");
    let desired = vec![&t1, &t2];
    let current_ingress = vec![IngressRule::unix_socket("a.example.com", "/tmp/a.sock"), IngressRule::catch_all()];
    let ingress = build_sync_ingress(&desired, &current_ingress, &[]);
    assert_eq!(ingress.len(), 3, "two desired + catch-all");
    assert!(ingress.last().unwrap().hostname.is_none(), "last rule is catch-all");
}

#[test]
fn test_build_sync_ingress_catch_all_is_last() {
    let t = make_tunnel("x.example.com", "/tmp/x.sock");
    let desired = vec![&t];
    let current_ingress = vec![
        IngressRule::unix_socket("x.example.com", "/tmp/x.sock"),
        IngressRule::unix_socket("orphan.example.com", "/tmp/orphan.sock"),
        IngressRule::catch_all(),
    ];
    let unknown_hosts = vec!["orphan.example.com".to_string()];
    let ingress = build_sync_ingress(&desired, &current_ingress, &unknown_hosts);
    assert!(ingress.last().unwrap().hostname.is_none(), "catch-all must be the last rule");
}

#[test]
fn unknown_hosts_are_those_without_a_local_tunnel() {
    let mut disabled = make_tunnel("off.example.com", "/tmp/off.sock");
    disabled.enabled = false;
    let tunnels = vec![make_tunnel("a.example.com", "/tmp/a.sock"), disabled];
    let current = vec![
        IngressRule::unix_socket("a.example.com", "/tmp/a.sock"),
        IngressRule::unix_socket("ghost.example.com", "/tmp/g.sock"),
        IngressRule::unix_socket("off.example.com", "/tmp/off.sock"),
        IngressRule::unix_socket("ghost.example.com", "/tmp/g2.sock"),
        IngressRule::catch_all(),
    ];
    assert_eq!(find_unknown_hosts(&current, &tunnels), vec!["ghost.example.com".to_string()]);
}

#[test]
fn hosts_to_add_are_enabled_and_not_routed() {
    let mut disabled = make_tunnel("off.example.com", "/tmp/off.sock");
    disabled.enabled = false;
    let tunnels = vec![
        make_tunnel("a.example.com", "/tmp/a.sock"),
        make_tunnel("new.example.com", "/tmp/n.sock"),
        disabled,
        make_tunnel("new.example.com", "/tmp/n2.sock"),
    ];
    let current = vec![IngressRule::unix_socket("a.example.com", "/tmp/a.sock"), IngressRule::catch_all()];
    assert_eq!(hosts_to_add(&tunnels, &current), vec!["new.example.com".to_string()]);
    let desired = enabled_tunnels(&tunnels);
    assert_eq!(desired.len(), 3);
}

#[test]
fn removing_hosts_keeps_others_and_a_catch_all() {
    let current = vec![
        IngressRule::unix_socket("a.example.com", "/tmp/a.sock"),
        IngressRule::unix_socket("b.example.com", "/tmp/b.sock"),
    ];
    let ingress = ingress_without_hosts(&current, &["a.example.com".to_string()]);
    assert_eq!(hostnames(&ingress), vec![Some("b.example.com"), None]);
    assert_eq!(ingress[1].service, "http_status:404");
}

#[test]
fn adding_a_tunnel_appends_before_a_new_catch_all() {
    let current = vec![IngressRule::catch_all(), IngressRule::unix_socket("a.example.com", "/tmp/a.sock")];
    let ingress = ingress_with_added(&current, &make_tunnel("n.example.com", "/tmp/n.sock"));
    assert_eq!(hostnames(&ingress), vec![Some("a.example.com"), Some("n.example.com"), None]);
    assert_eq!(ingress[1].service, "unix:/tmp/n.sock");
}

#[test]
fn removing_a_domain_keeps_the_catch_all() {
    let current = vec![
        IngressRule::unix_socket("a.example.com", "/tmp/a.sock"),
        IngressRule::catch_all(),
    ];
    let ingress = ingress_without_domain(&current, "a.example.com");
    assert_eq!(hostnames(&ingress), vec![None]);
}

#[test]
fn updating_a_tunnel_replaces_its_rule_in_place() {
    let current = vec![
        IngressRule::unix_socket("a.example.com", "/tmp/a.sock"),
        IngressRule::unix_socket("b.example.com", "/tmp/b.sock"),
        IngressRule::catch_all(),
    ];
    let ingress = ingress_with_updated(&current, "a.example.com", &make_tunnel("c.example.com", "/tmp/c.sock"));
    assert_eq!(hostnames(&ingress), vec![Some("c.example.com"), Some("b.example.com"), None]);
    let appended = ingress_with_updated(&current, "zzz", &make_tunnel("d.example.com", "/tmp/d.sock"));
    assert_eq!(
        hostnames(&appended),
        vec![Some("a.example.com"), Some("b.example.com"), Some("d.example.com"), None]
    );
}

#[test]
fn cache_rule_hostnames_skip_the_catch_all() {
    let ingress = vec![
        IngressRule::unix_socket("a.example.com", "/tmp/a.sock"),
        IngressRule::catch_all(),
        IngressRule::unix_socket("b.example.com", "/tmp/b.sock"),
    ];
    assert_eq!(ingress_hostnames(&ingress), vec!["a.example.com".to_string(), "b.example.com".to_string()]);
}

#[test]
fn dns_records_are_matched_by_name() {
    let records = vec![record("r1", "a.example.com"), record("r2", "b.example.com"), record("r3", "a.example.com")];
    assert_eq!(find_dns_record(&records, "a.example.com"), Some("r1".to_string()));
    assert_eq!(find_dns_record(&records, "z.example.com"), None);
    let deletions = dns_records_to_delete(&records, &["a.example.com".to_string(), "zz".to_string(), "b.example.com".to_string()]);
    assert_eq!(
        deletions,
        vec![
            ("a.example.com".to_string(), "r3".to_string()),
            ("b.example.com".to_string(), "r2".to_string())
        ]
    );
}

#[test]
fn credentials_are_recorded_in_cloudflare_settings() {
    let mut config = Config::default_config();
    set_tunnel_credentials(&mut config, "tid".to_string(), "tok".to_string());
    assert!(config.cloudflare.is_none());
    config.cloudflare = Some(CloudflareConfig {
        api_token: "t".to_string(),
        account_id: "a".to_string(),
        zone_id: "z".to_string(),
        tunnel_id: None,
        tunnel_name: "tunneldesk".to_string(),
        tunnel_token: None,
    });
    set_tunnel_credentials(&mut config, "tid-xyz".to_string(), "tok-abc".to_string());
    let cf = config.cloudflare.unwrap();
    assert_eq!(cf.tunnel_id, Some("tid-xyz".to_string()));
    assert_eq!(cf.tunnel_token, Some("tok-abc".to_string()));
    assert_eq!(cf.api_token, "t");
}
