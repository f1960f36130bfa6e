use tunneldesk::cloudflare::{
    build_hostname_expression, bypass_cache_rules, check_response, CacheRulesetRule, CacheRulesetRuleActionParameters,
    IngressRule,
};

const DESCRIPTION: &str = "TunnelDesk: bypass cache for tunneled hostnames";

fn rule(description: Option<&str>, expression: &str) -> CacheRulesetRule {
    CacheRulesetRule {
        id: Some("id".to_string()),
        action: "set_cache_settings".to_string(),
        action_parameters: Some(CacheRulesetRuleActionParameters { cache: Some(false) }),
        expression: expression.to_string(),
        description: description.map(|d| d.to_string()),
        enabled: true,
    }
}

#[test]
fn test_ingress_rule_catch_all() {
    let rule = IngressRule::catch_all();
    assert!(rule.hostname.is_none());
    assert_eq!(rule.service, "http_status:404");
}

#[test]
fn test_ingress_rule_unix_socket() {
    let rule = IngressRule::unix_socket("app.example.com", "/tmp/app.sock");
    assert_eq!(rule.hostname, Some("app.example.com".to_string()));
    assert_eq!(rule.service, "unix:/tmp/app.sock");
}

#[test]
fn test_build_hostname_expression_single() {
    let expr = build_hostname_expression(&["app.example.com"]);
    assert_eq!(expr, r#"http.host eq "app.example.com""#);
}

#[test]
fn test_build_hostname_expression_multiple() {
    let expr = build_hostname_expression(&["a.example.com", "b.example.com"]);
    assert_eq!(expr, r#"http.host in {"a.example.com" "b.example.com"}"#);
}

#[test]
fn hostname_expression_of_three_hosts() {
    let expr = build_hostname_expression(&["a", "b", "c"]);
    assert_eq!(expr, r#"http.host in {"a" "b" "c"}"#);
}

#[test]
fn bypass_rule_replaces_the_managed_rule_and_keeps_others() {
    let existing = vec![
        rule(Some("other"), "http.host eq \"x\""),
        rule(Some(DESCRIPTION), "http.host eq \"old\""),
        rule(None, "true"),
    ];
    let rules = bypass_cache_rules(existing, &["new.example.com"]);
    assert_eq!(rules.len(), 3);
    assert_eq!(rules[0].description.as_deref(), Some("other"));
    assert!(rules[1].description.is_none());
    let managed = &rules[2];
    assert_eq!(managed.description.as_deref(), Some(DESCRIPTION));
    assert_eq!(managed.expression, r#"http.host eq "new.example.com""#);
    assert_eq!(managed.action, "set_cache_settings");
    assert!(managed.id.is_none());
    assert!(managed.enabled);
    assert_eq!(managed.action_parameters.as_ref().unwrap().cache, Some(false));
}

#[test]
fn bypass_rule_removed_when_no_hostnames() {
    let existing = vec![rule(Some(DESCRIPTION), "http.host eq \"old\""), rule(Some("keep"), "true")];
    let rules = bypass_cache_rules(existing, &[]);
    assert_eq!(rules.len(), 1);
    assert_eq!(rules[0].description.as_deref(), Some("keep"));
}

#[test]
fn failed_response_names_operation_and_messages() {
    assert!(check_response("create_tunnel", true, &vec![]).is_ok());
    let err = check_response("create_tunnel", false, &vec!["Invalid API token".to_string(), "second".to_string()]).unwrap_err();
    assert_eq!(err, "create_tunnel failed: Invalid API token; second");
    let err = check_response("op", false, &vec![]).unwrap_err();
    assert_eq!(err, "op failed: ");
}
