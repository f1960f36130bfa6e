//! The Cloudflare data the library works with: tunnel ingress rules, cache
//! rules and DNS records, and the rules the library derives from them.
use vstd::prelude::*;

use crate::text::{append_chars, append_str, chars_eq, str_chars, string_from_chars};

verus! {

/// A single ingress rule of a tunnel configuration.
#[derive(Clone, Debug)]
pub struct IngressRule {
    /// Public hostname of the rule; `None` for the catch-all rule.
    pub hostname: Option<String>,
    /// Backend service (e.g. `"unix:/tmp/tunnel.sock"` or `"http_status:404"`).
    pub service: String,
    /// Per-rule origin request settings, as JSON text, kept as received.
    pub origin_request: Option<String>,
}

/// `"http_status:404"`.
pub open spec fn catch_all_service() -> Seq<char> {
    seq!['h', 't', 't', 'p', '_', 's', 't', 'a', 't', 'u', 's', ':', '4', '0', '4']
}

/// `"unix:"`.
pub open spec fn unix_prefix() -> Seq<char> {
    seq!['u', 'n', 'i', 'x', ':']
}

/// The hostname of a rule as text, if it has one.
pub open spec fn opt_text(o: Option<String>) -> Option<Seq<char>> {
    match o {
        Some(s) => Some(s@),
        None => None,
    }
}

impl IngressRule {
    /// A catch-all rule that answers HTTP 404.
    pub fn catch_all() -> (r: IngressRule)
        ensures
            r.hostname is None,
            r.service@ == catch_all_service(),
            r.origin_request is None,
    {
        let service = string_from_chars(
            &['h', 't', 't', 'p', '_', 's', 't', 'a', 't', 'u', 's', ':', '4', '0', '4'],
        );
        IngressRule { hostname: None, service, origin_request: None }
    }

    /// A rule forwarding `hostname` to the Unix socket at `socket_path`.
    pub fn unix_socket(hostname: &str, socket_path: &str) -> (r: IngressRule)
        ensures
            opt_text(r.hostname) == Some(hostname@),
            r.service@ == unix_prefix() + socket_path@,
            r.origin_request is None,
    {
        let mut service: Vec<char> = Vec::new();
        append_chars(&mut service, &['u', 'n', 'i', 'x', ':']);
        append_str(&mut service, socket_path);
        IngressRule {
            hostname: Some(hostname.to_string()),
            service: string_from_chars(&service),
            origin_request: None,
        }
    }

    /// A copy of the rule.
    pub fn duplicate(&self) -> (r: IngressRule)
        ensures
            r.hostname == self.hostname,
            r.service == self.service,
            r.origin_request == self.origin_request,
    {
        IngressRule {
            hostname: self.hostname.clone(),
            service: self.service.clone(),
            origin_request: self.origin_request.clone(),
        }
    }
}

/// The ingress configuration of a tunnel.
#[derive(Clone, Debug)]
pub struct TunnelConfiguration {
    pub ingress: Vec<IngressRule>,
}

/// Parameters of a cache rule's action.
#[derive(Clone, Debug)]
pub struct CacheRulesetRuleActionParameters {
    /// Whether the origin's response may be cached.
    pub cache: Option<bool>,
}

/// A single rule of a zone's cache ruleset.
#[derive(Clone, Debug)]
pub struct CacheRulesetRule {
    /// Id assigned by Cloudflare; absent for a new rule.
    pub id: Option<String>,
    /// Rule action (e.g. `"set_cache_settings"`).
    pub action: String,
    pub action_parameters: Option<CacheRulesetRuleActionParameters>,
    /// Wirefilter expression (e.g. `http.host eq "example.com"`).
    pub expression: String,
    /// Description used to recognise the rule.
    pub description: Option<String>,
    /// Whether the rule is active.
    pub enabled: bool,
}

/// A DNS record of a zone.
#[derive(Clone, Debug)]
pub struct DnsRecord {
    pub id: String,
    pub name: String,
    /// Record type (e.g. `"CNAME"`).
    pub record_type: String,
    pub content: String,
}

/// `"`h`"`: a hostname in double quotes.
pub open spec fn quoted(h: Seq<char>) -> Seq<char> {
    seq!['"'] + h + seq!['"']
}

/// The quoted hostnames separated by single spaces.
pub open spec fn join_quoted(hs: Seq<Seq<char>>) -> Seq<char>
    decreases hs.len(),
{
    if hs.len() == 0 {
        Seq::empty()
    } else if hs.len() == 1 {
        quoted(hs[0])
    } else {
        join_quoted(hs.drop_last()) + seq![' '] + quoted(hs.last())
    }
}

/// The hostnames of a slice as texts.
pub open spec fn host_texts(hs: Seq<&str>) -> Seq<Seq<char>> {
    hs.map_values(|h: &str| h@)
}

/// `http.host eq "h"` for one hostname; `http.host in {"a" "b" …}` for more.
pub open spec fn spec_hostname_expression(hs: Seq<Seq<char>>) -> Seq<char> {
    if hs.len() == 1 {
        seq!['h', 't', 't', 'p', '.', 'h', 'o', 's', 't', ' ', 'e', 'q', ' '] + quoted(hs[0])
    } else {
        seq!['h', 't', 't', 'p', '.', 'h', 'o', 's', 't', ' ', 'i', 'n', ' ', '{'] + join_quoted(hs)
            + seq!['}']
    }
}

/// Builds a Wirefilter expression that matches any of the given hostnames:
/// `http.host eq "example.com"` for one, `http.host in {"a.com" "b.com"}` for
/// several.
pub fn build_hostname_expression(hostnames: &[&str]) -> (r: String)
    requires
        hostnames@.len() > 0,
    ensures
        r@ == spec_hostname_expression(host_texts(hostnames@)),
{
    let ghost hs = host_texts(hostnames@);
    let mut out: Vec<char> = Vec::new();
    if hostnames.len() == 1 {
        append_chars(&mut out, &['h', 't', 't', 'p', '.', 'h', 'o', 's', 't', ' ', 'e', 'q', ' ']);
        out.push('"');
        append_str(&mut out, hostnames[0]);
        out.push('"');
        assert(out@ =~= spec_hostname_expression(hs));
        return string_from_chars(&out);
    }
    append_chars(
        &mut out,
        &['h', 't', 't', 'p', '.', 'h', 'o', 's', 't', ' ', 'i', 'n', ' ', '{'],
    );
    let ghost head = out@;
    let mut i: usize = 0;
    while i < hostnames.len()
        invariant
            hs == host_texts(hostnames@),
            i <= hostnames@.len(),
            out@ =~= head + join_quoted(hs.take(i as int)),
        decreases hostnames@.len() - i,
    {
        if i > 0 {
            out.push(' ');
        }
        out.push('"');
        append_str(&mut out, hostnames[i]);
        out.push('"');
        proof {
            let t = hs.take(i + 1);
            assert(t.drop_last() =~= hs.take(i as int));
            assert(t.last() == hostnames@[i as int]@);
            if i == 0 {
                assert(join_quoted(hs.take(0)) =~= Seq::<char>::empty());
                assert(t.len() == 1);
            }
        }
        i = i + 1;
    }
    out.push('}');
    assert(hs.take(hostnames@.len() as int) =~= hs);
    assert(out@ =~= spec_hostname_expression(hs));
    string_from_chars(&out)
}

/// `"TunnelDesk: bypass cache for tunneled hostnames"`, the description that
/// marks the cache rule this library manages.
pub open spec fn bypass_description() -> Seq<char> {
    seq![
        'T', 'u', 'n', 'n', 'e', 'l', 'D', 'e', 's', 'k', ':', ' ', 'b', 'y', 'p', 'a', 's', 's',
        ' ', 'c', 'a', 'c', 'h', 'e', ' ', 'f', 'o', 'r', ' ', 't', 'u', 'n', 'n', 'e', 'l', 'e',
        'd', ' ', 'h', 'o', 's', 't', 'n', 'a', 'm', 'e', 's',
    ]
}

/// `"set_cache_settings"`.
pub open spec fn set_cache_settings() -> Seq<char> {
    seq!['s', 'e', 't', '_', 'c', 'a', 'c', 'h', 'e', '_', 's', 'e', 't', 't', 'i', 'n', 'g', 's']
}

/// `true` when a rule is the one this library manages.
pub open spec fn is_bypass_rule(r: CacheRulesetRule) -> bool {
    opt_text(r.description) == Some(bypass_description())
}

/// The description text of the managed rule.
fn bypass_description_chars() -> (r: Vec<char>)
    ensures
        r@ == bypass_description(),
{
    let mut v: Vec<char> = Vec::new();
    append_chars(
        &mut v,
        &[
            'T', 'u', 'n', 'n', 'e', 'l', 'D', 'e', 's', 'k', ':', ' ', 'b', 'y', 'p', 'a', 's',
            's', ' ', 'c', 'a', 'c', 'h', 'e', ' ', 'f', 'o', 'r', ' ', 't', 'u', 'n', 'n', 'e',
            'l', 'e', 'd', ' ', 'h', 'o', 's', 't', 'n', 'a', 'm', 'e', 's',
        ],
    );
    assert(v@ =~= bypass_description());
    v
}

/// The zone's cache rules with the managed bypass rule brought up to date:
/// every earlier managed rule is removed, the other rules are kept in order,
/// and, when there are hostnames, a new enabled `set_cache_settings` rule
/// that turns caching off for them is appended.  With no hostnames the
/// managed rule is removed entirely.
pub fn bypass_cache_rules(existing: Vec<CacheRulesetRule>, hostnames: &[&str]) -> (r: Vec<CacheRulesetRule>)
    ensures
        ({
            let kept = existing@.filter(|x: CacheRulesetRule| !is_bypass_rule(x));
            if hostnames@.len() == 0 {
                r@ == kept
            } else {
                &&& r@.len() == kept.len() + 1
                &&& r@.take(kept.len() as int) == kept
                &&& r@.last().id is None
                &&& r@.last().action@ == set_cache_settings()
                &&& r@.last().action_parameters matches Some(p) && p.cache == Some(false)
                &&& r@.last().expression@ == spec_hostname_expression(host_texts(hostnames@))
                &&& opt_text(r@.last().description) == Some(bypass_description())
                &&& r@.last().enabled
            }
        }),
{
    let desc = bypass_description_chars();
    let ghost pred = |x: CacheRulesetRule| !is_bypass_rule(x);
    let mut out: Vec<CacheRulesetRule> = Vec::new();
    let ghost src = existing@;
    let mut rest = existing;
    let n = rest.len();
    let mut i: usize = 0;
    assert(src.take(0) =~= Seq::<CacheRulesetRule>::empty());
    proof {
        reveal(Seq::filter);
    }
    while rest.len() > 0
        invariant
            i + rest@.len() == n,
            n == src.len(),
            rest@ == src.skip(i as int),
            desc@ == bypass_description(),
            forall|x: CacheRulesetRule| #[trigger] pred(x) == !is_bypass_rule(x),
            out@ == src.take(i as int).filter(pred),
        decreases rest@.len(),
    {
        let rule = rest.remove(0);
        assert(rule == src[i as int]);
        let managed = match &rule.description {
            Some(d) => chars_eq(&str_chars(d.as_str()), &desc),
            None => false,
        };
        proof {
            assert(src.take(i + 1) =~= src.take(i as int).push(rule));
            src.take(i as int).lemma_filter_push(rule, pred);
            assert(managed == is_bypass_rule(rule));
        }
        if !managed {
            out.push(rule);
        }
        assert(rest@ =~= src.skip(i + 1));
        i = i + 1;
    }
    assert(src.take(n as int) =~= src);
    if hostnames.len() > 0 {
        let expression = build_hostname_expression(hostnames);
        let action = string_from_chars(
            &['s', 'e', 't', '_', 'c', 'a', 'c', 'h', 'e', '_', 's', 'e', 't', 't', 'i', 'n', 'g', 's'],
        );
        let ghost kept = out@;
        out.push(
            CacheRulesetRule {
                id: None,
                action,
                action_parameters: Some(CacheRulesetRuleActionParameters { cache: Some(false) }),
                expression,
                description: Some(string_from_chars(&desc)),
                enabled: true,
            },
        );
        assert(out@.take(kept.len() as int) =~= kept);
    }
    out
}

/// The error text of a failed API call: `"<operation> failed: "` and the
/// messages Cloudflare returned, separated by `"; "`.
pub open spec fn spec_failure_message(operation: Seq<char>, messages: Seq<Seq<char>>) -> Seq<char> {
    operation + seq![' ', 'f', 'a', 'i', 'l', 'e', 'd', ':', ' '] + join_semicolon(messages)
}

/// The messages separated by `"; "`.
pub open spec fn join_semicolon(ms: Seq<Seq<char>>) -> Seq<char>
    decreases ms.len(),
{
    if ms.len() == 0 {
        Seq::empty()
    } else if ms.len() == 1 {
        ms[0]
    } else {
        join_semicolon(ms.drop_last()) + seq![';', ' '] + ms.last()
    }
}

/// The texts of a list of strings.
pub open spec fn string_texts(v: Seq<String>) -> Seq<Seq<char>> {
    v.map_values(|s: String| s@)
}

/// Checks the `success` flag of a Cloudflare API response envelope: `Ok`
/// when it is set, else the error text naming `operation` and the returned
/// error messages.
pub fn check_response(operation: &str, success: bool, messages: &Vec<String>) -> (r: Result<(), String>)
    ensures
        success ==> r is Ok,
        !success ==> (r matches Err(e) && e@ == spec_failure_message(
            operation@,
            string_texts(messages@),
        )),
{
    if success {
        return Ok(());
    }
    let ghost ms = string_texts(messages@);
    let mut out: Vec<char> = Vec::new();
    append_str(&mut out, operation);
    append_chars(&mut out, &[' ', 'f', 'a', 'i', 'l', 'e', 'd', ':', ' ']);
    let ghost head = out@;
    let mut i: usize = 0;
    while i < messages.len()
        invariant
            ms == string_texts(messages@),
            i <= messages@.len(),
            out@ =~= head + join_semicolon(ms.take(i as int)),
        decreases messages@.len() - i,
    {
        if i > 0 {
            out.push(';');
            out.push(' ');
        }
        append_str(&mut out, messages[i].as_str());
        proof {
            let t = ms.take(i + 1);
            assert(t.drop_last() =~= ms.take(i as int));
            assert(t.last() == messages@[i as int]@);
            if i == 0 {
                assert(join_semicolon(ms.take(0)) =~= Seq::<char>::empty());
                assert(t.len() == 1);
            }
        }
        i = i + 1;
    }
    assert(ms.take(messages@.len() as int) =~= ms);
    Err(string_from_chars(&out))
}

} // verus!
