//! The decisions of synchronising the local tunnel list with Cloudflare: which
//! hosts are unknown or missing there, and the ingress rules, DNS records and
//! cache rule hostnames that bring Cloudflare in line.
use vstd::prelude::*;

use crate::cloudflare::{catch_all_service, join_semicolon, opt_text, unix_prefix, DnsRecord, IngressRule};
use crate::config::{CloudflareConfig, Config, TunnelConfig};
use crate::text::{append_chars, append_str, chars_eq, str_chars, string_from_chars};

verus! {

/// Summary of a sync operation.
#[derive(Clone, Debug)]
pub struct SyncReport {
    /// Domains added to Cloudflare (ingress rule and DNS record created).
    pub added: Vec<String>,
    /// Domains removed from Cloudflare.
    pub removed: Vec<String>,
    /// Domains found on Cloudflare but absent from the local configuration,
    /// returned for confirmation before removal.
    pub unknown_hosts: Vec<String>,
    /// Non-fatal errors met during the sync.
    pub errors: Vec<String>,
}

impl Default for SyncReport {
    fn default() -> (r: SyncReport)
        ensures
            r.added@.len() == 0,
            r.removed@.len() == 0,
            r.unknown_hosts@.len() == 0,
            r.errors@.len() == 0,
    {
        SyncReport {
            added: Vec::new(),
            removed: Vec::new(),
            unknown_hosts: Vec::new(),
            errors: Vec::new(),
        }
    }
}

/// `true` when `t` is one of the texts of `v`.
pub open spec fn has_text(v: Seq<Seq<char>>, t: Seq<char>) -> bool {
    exists|i: int| 0 <= i < v.len() && v[i] == t
}

/// The texts of a list of strings.
pub open spec fn texts(v: Seq<String>) -> Seq<Seq<char>> {
    v.map_values(|s: String| s@)
}

/// The domains of a list of tunnels.
pub open spec fn domains(ts: Seq<TunnelConfig>) -> Seq<Seq<char>> {
    ts.map_values(|t: TunnelConfig| t.domain@)
}

/// `true` when `s` occurs in `v`.
fn contains_text(v: &[String], s: &str) -> (r: bool)
    ensures
        r == has_text(texts(v@), s@),
{
    let target = str_chars(s);
    let mut i: usize = 0;
    while i < v.len()
        invariant
            i <= v@.len(),
            target@ == s@,
            forall|j: int| 0 <= j < i ==> v@[j]@ != s@,
        decreases v@.len() - i,
    {
        if chars_eq(&str_chars(v[i].as_str()), &target) {
            assert(texts(v@)[i as int] == s@);
            return true;
        }
        i = i + 1;
    }
    proof {
        assert forall|j: int| !(0 <= j < texts(v@).len() && texts(v@)[j] == s@) by {
            if 0 <= j < v@.len() {
                assert(texts(v@)[j] == v@[j]@);
            }
        }
    }
    false
}

/// `true` when `s` is the domain of one of the tunnels.
fn is_local_domain(tunnels: &Vec<TunnelConfig>, s: &str) -> (r: bool)
    ensures
        r == has_text(domains(tunnels@), s@),
{
    let target = str_chars(s);
    let mut i: usize = 0;
    while i < tunnels.len()
        invariant
            i <= tunnels@.len(),
            target@ == s@,
            forall|j: int| 0 <= j < i ==> tunnels@[j].domain@ != s@,
        decreases tunnels@.len() - i,
    {
        if chars_eq(&str_chars(tunnels[i].domain.as_str()), &target) {
            assert(domains(tunnels@)[i as int] == s@);
            return true;
        }
        i = i + 1;
    }
    proof {
        assert forall|j: int| !(0 <= j < domains(tunnels@).len() && domains(tunnels@)[j] == s@) by {
            if 0 <= j < tunnels@.len() {
                assert(domains(tunnels@)[j] == tunnels@[j].domain@);
            }
        }
    }
    false
}

/// `true` when `r` routes one of the hostnames `hosts`.
pub open spec fn routes_one_of(r: IngressRule, hosts: Seq<Seq<char>>) -> bool {
    match r.hostname {
        Some(h) => has_text(hosts, h@),
        None => false,
    }
}

/// `true` when `r` is a rule for `tunnel`: its hostname is the tunnel's
/// domain and it forwards to the tunnel's socket.
pub open spec fn rule_for(r: IngressRule, domain: Seq<char>, socket_path: Seq<char>) -> bool {
    &&& opt_text(r.hostname) == Some(domain)
    &&& r.service@ == unix_prefix() + socket_path
    &&& r.origin_request is None
}

/// `true` when `r` is the catch-all rule.
pub open spec fn is_catch_all(r: IngressRule) -> bool {
    r.hostname is None && r.service@ == catch_all_service() && r.origin_request is None
}

/// The rules of `current` that route one of the hosts `unknown`, in order.
pub open spec fn unknown_rules(current: Seq<IngressRule>, unknown: Seq<Seq<char>>) -> Seq<IngressRule> {
    current.filter(|r: IngressRule| routes_one_of(r, unknown))
}

/// `true` when `ingress` is what a sync pushes: one rule per desired tunnel,
/// in order, then the current rules of the unknown hosts, in order, then the
/// catch-all rule.
pub open spec fn is_sync_ingress(
    ingress: Seq<IngressRule>,
    desired: Seq<&TunnelConfig>,
    current: Seq<IngressRule>,
    unknown: Seq<Seq<char>>,
) -> bool {
    let kept = unknown_rules(current, unknown);
    &&& ingress.len() == desired.len() + kept.len() + 1
    &&& forall|i: int|
        0 <= i < desired.len() ==> rule_for(
            #[trigger] ingress[i],
            desired[i].domain@,
            desired[i].socket_path@,
        )
    &&& forall|j: int| 0 <= j < kept.len() ==> ingress[desired.len() + j] == #[trigger] kept[j]
    &&& is_catch_all(ingress.last())
}

/// Builds the ingress rules a sync pushes: one rule per desired (enabled)
/// tunnel, the current rules of the unknown hosts (present on Cloudflare but
/// not configured locally), so that they are not removed before the user
/// confirms, and the catch-all rule last.
pub fn build_sync_ingress(
    desired: &[&TunnelConfig],
    current_ingress: &[IngressRule],
    unknown_hosts: &[String],
) -> (r: Vec<IngressRule>)
    ensures
        is_sync_ingress(r@, desired@, current_ingress@, texts(unknown_hosts@)),
{
    let ghost u = texts(unknown_hosts@);
    let mut ingress: Vec<IngressRule> = Vec::new();
    let mut i: usize = 0;
    while i < desired.len()
        invariant
            i <= desired@.len(),
            ingress@.len() == i,
            forall|k: int|
                0 <= k < i ==> rule_for(
                    #[trigger] ingress@[k],
                    desired@[k].domain@,
                    desired@[k].socket_path@,
                ),
        decreases desired@.len() - i,
    {
        let t = desired[i];
        ingress.push(IngressRule::unix_socket(t.domain.as_str(), t.socket_path.as_str()));
        i = i + 1;
    }
    let ghost d = ingress@;
    let ghost pred = |r: IngressRule| routes_one_of(r, u);
    let mut j: usize = 0;
    proof {
        reveal(Seq::filter);
        assert(current_ingress@.take(0) =~= Seq::<IngressRule>::empty());
    }
    while j < current_ingress.len()
        invariant
            j <= current_ingress@.len(),
            u == texts(unknown_hosts@),
            forall|x: IngressRule| #[trigger] pred(x) == routes_one_of(x, u),
            ingress@ == d + current_ingress@.take(j as int).filter(pred),
        decreases current_ingress@.len() - j,
    {
        let rule = &current_ingress[j];
        let keep = match &rule.hostname {
            Some(h) => contains_text(unknown_hosts, h.as_str()),
            None => false,
        };
        proof {
            assert(current_ingress@.take(j + 1) =~= current_ingress@.take(j as int).push(*rule));
            current_ingress@.take(j as int).lemma_filter_push(*rule, pred);
            assert(keep == routes_one_of(*rule, u));
        }
        if keep {
            ingress.push(rule.duplicate());
            assert(ingress@ =~= d + current_ingress@.take(j + 1).filter(pred));
        } else {
            assert(ingress@ =~= d + current_ingress@.take(j + 1).filter(pred));
        }
        j = j + 1;
    }
    assert(current_ingress@.take(current_ingress@.len() as int) =~= current_ingress@);
    ingress.push(IngressRule::catch_all());
    ingress
}


/// The hostnames routed by `rules`, in order (the catch-all has none).
pub open spec fn rule_hosts(rules: Seq<IngressRule>) -> Seq<Seq<char>>
    decreases rules.len(),
{
    if rules.len() == 0 {
        Seq::empty()
    } else {
        let r = rule_hosts(rules.drop_last());
        match rules.last().hostname {
            Some(h) => r.push(h@),
            None => r,
        }
    }
}

/// The texts of `hs` that are not in `exclude`, each once, in the order of
/// their first occurrence.
pub open spec fn distinct_absent(hs: Seq<Seq<char>>, exclude: Seq<Seq<char>>) -> Seq<Seq<char>>
    decreases hs.len(),
{
    if hs.len() == 0 {
        Seq::empty()
    } else {
        let r = distinct_absent(hs.drop_last(), exclude);
        let h = hs.last();
        if !has_text(exclude, h) && !has_text(r, h) {
            r.push(h)
        } else {
            r
        }
    }
}

/// The domains of the enabled tunnels, in order.
pub open spec fn enabled_domains(ts: Seq<TunnelConfig>) -> Seq<Seq<char>>
    decreases ts.len(),
{
    if ts.len() == 0 {
        Seq::empty()
    } else {
        let r = enabled_domains(ts.drop_last());
        if ts.last().enabled {
            r.push(ts.last().domain@)
        } else {
            r
        }
    }
}

/// The hostnames routed by the ingress rules, in order; the catch-all rule is
/// skipped.  These are the hostnames the cache bypass rule covers.
pub fn ingress_hostnames(ingress: &[IngressRule]) -> (r: Vec<String>)
    ensures
        texts(r@) == rule_hosts(ingress@),
{
    let mut out: Vec<String> = Vec::new();
    let mut i: usize = 0;
    assert(ingress@.take(0) =~= Seq::<IngressRule>::empty());
    while i < ingress.len()
        invariant
            i <= ingress@.len(),
            texts(out@) =~= rule_hosts(ingress@.take(i as int)),
        decreases ingress@.len() - i,
    {
        assert(ingress@.take(i + 1).drop_last() =~= ingress@.take(i as int));
        assert(ingress@.take(i + 1).last() == ingress@[i as int]);
        match &ingress[i].hostname {
            Some(h) => {
                let ghost before = out@;
                out.push(h.clone());
                assert(texts(out@) =~= texts(before).push(h@));
            },
            None => {},
        }
        i = i + 1;
    }
    assert(ingress@.take(ingress@.len() as int) =~= ingress@);
    out
}

/// The texts of `hs` that are not in `exclude`, each once, in the order of
/// their first occurrence.
fn distinct_absent_exec(hs: &Vec<String>, exclude: &Vec<String>) -> (r: Vec<String>)
    ensures
        texts(r@) == distinct_absent(texts(hs@), texts(exclude@)),
{
    let ghost h = texts(hs@);
    let mut out: Vec<String> = Vec::new();
    let mut i: usize = 0;
    assert(h.take(0) =~= Seq::<Seq<char>>::empty());
    while i < hs.len()
        invariant
            h == texts(hs@),
            i <= hs@.len(),
            texts(out@) =~= distinct_absent(h.take(i as int), texts(exclude@)),
        decreases hs@.len() - i,
    {
        assert(h.take(i + 1).drop_last() =~= h.take(i as int));
        assert(h.take(i + 1).last() == hs@[i as int]@);
        let x = &hs[i];
        if !contains_text(exclude.as_slice(), x.as_str()) && !contains_text(out.as_slice(), x.as_str()) {
            let ghost before = out@;
            out.push(x.clone());
            assert(texts(out@) =~= texts(before).push(x@));
        }
        i = i + 1;
    }
    assert(h.take(hs@.len() as int) =~= h);
    out
}

/// The domains of every configured tunnel.
fn tunnel_domains(tunnels: &Vec<TunnelConfig>) -> (r: Vec<String>)
    ensures
        texts(r@) == domains(tunnels@),
{
    let mut out: Vec<String> = Vec::new();
    let mut i: usize = 0;
    while i < tunnels.len()
        invariant
            i <= tunnels@.len(),
            texts(out@) =~= domains(tunnels@).take(i as int),
        decreases tunnels@.len() - i,
    {
        let ghost before = out@;
        out.push(tunnels[i].domain.clone());
        assert(texts(out@) =~= texts(before).push(tunnels@[i as int].domain@));
        i = i + 1;
    }
    out
}

/// The domains of the enabled tunnels, in order.
fn enabled_tunnel_domains(tunnels: &Vec<TunnelConfig>) -> (r: Vec<String>)
    ensures
        texts(r@) == enabled_domains(tunnels@),
{
    let mut out: Vec<String> = Vec::new();
    let mut i: usize = 0;
    assert(tunnels@.take(0) =~= Seq::<TunnelConfig>::empty());
    while i < tunnels.len()
        invariant
            i <= tunnels@.len(),
            texts(out@) =~= enabled_domains(tunnels@.take(i as int)),
        decreases tunnels@.len() - i,
    {
        assert(tunnels@.take(i + 1).drop_last() =~= tunnels@.take(i as int));
        assert(tunnels@.take(i + 1).last() == tunnels@[i as int]);
        if tunnels[i].enabled {
            let ghost before = out@;
            out.push(tunnels[i].domain.clone());
            assert(texts(out@) =~= texts(before).push(tunnels@[i as int].domain@));
        }
        i = i + 1;
    }
    assert(tunnels@.take(tunnels@.len() as int) =~= tunnels@);
    out
}

/// The enabled tunnels, in order: the tunnels Cloudflare routes.
pub fn enabled_tunnels(tunnels: &Vec<TunnelConfig>) -> (r: Vec<&TunnelConfig>)
    ensures
        r@.len() <= tunnels@.len(),
        forall|i: int| 0 <= i < r@.len() ==> (#[trigger] r@[i]).enabled,
        domains(r@.map_values(|t: &TunnelConfig| *t)) == enabled_domains(tunnels@),
{
    let mut out: Vec<&TunnelConfig> = Vec::new();
    let mut i: usize = 0;
    assert(tunnels@.take(0) =~= Seq::<TunnelConfig>::empty());
    while i < tunnels.len()
        invariant
            i <= tunnels@.len(),
            out@.len() <= i,
            forall|k: int| 0 <= k < out@.len() ==> (#[trigger] out@[k]).enabled,
            domains(out@.map_values(|t: &TunnelConfig| *t)) =~= enabled_domains(
                tunnels@.take(i as int),
            ),
        decreases tunnels@.len() - i,
    {
        assert(tunnels@.take(i + 1).drop_last() =~= tunnels@.take(i as int));
        assert(tunnels@.take(i + 1).last() == tunnels@[i as int]);
        if tunnels[i].enabled {
            let ghost before = out@;
            out.push(&tunnels[i]);
            assert(domains(out@.map_values(|t: &TunnelConfig| *t)) =~= domains(
                before.map_values(|t: &TunnelConfig| *t),
            ).push(tunnels@[i as int].domain@));
        }
        i = i + 1;
    }
    assert(tunnels@.take(tunnels@.len() as int) =~= tunnels@);
    out
}

/// Hosts routed on Cloudflare that no local tunnel has as its domain, each
/// once, in the order of the ingress rules.  A sync reports them instead of
/// removing them.
pub fn find_unknown_hosts(current_ingress: &[IngressRule], tunnels: &Vec<TunnelConfig>) -> (r: Vec<String>)
    ensures
        texts(r@) == distinct_absent(rule_hosts(current_ingress@), domains(tunnels@)),
{
    let hosts = ingress_hostnames(current_ingress);
    let local = tunnel_domains(tunnels);
    distinct_absent_exec(&hosts, &local)
}

/// Domains of enabled tunnels that Cloudflare does not route yet, each once,
/// in configuration order: those a sync creates a DNS record for.
pub fn hosts_to_add(tunnels: &Vec<TunnelConfig>, current_ingress: &[IngressRule]) -> (r: Vec<String>)
    ensures
        texts(r@) == distinct_absent(enabled_domains(tunnels@), rule_hosts(current_ingress@)),
{
    let wanted = enabled_tunnel_domains(tunnels);
    let routed = ingress_hostnames(current_ingress);
    distinct_absent_exec(&wanted, &routed)
}

/// `true` when some rule of `rules` is a catch-all (has no hostname).
pub open spec fn has_catch_all(rules: Seq<IngressRule>) -> bool {
    exists|i: int| 0 <= i < rules.len() && rules[i].hostname is None
}

/// `rules`, with the catch-all rule appended when none of them is one.
pub open spec fn with_catch_all(rules: Seq<IngressRule>, catch: IngressRule) -> Seq<IngressRule> {
    if has_catch_all(rules) {
        rules
    } else {
        rules.push(catch)
    }
}

/// Appends the catch-all rule unless a rule without hostname is present.
fn ensure_catch_all(rules: &mut Vec<IngressRule>)
    ensures
        has_catch_all(old(rules)@) ==> final(rules)@ == old(rules)@,
        !has_catch_all(old(rules)@) ==> final(rules)@.len() == old(rules)@.len() + 1
            && final(rules)@.take(old(rules)@.len() as int) == old(rules)@ && is_catch_all(
            final(rules)@.last(),
        ),
        has_catch_all(final(rules)@),
{
    let mut i: usize = 0;
    while i < rules.len()
        invariant
            i <= rules@.len(),
            forall|j: int| 0 <= j < i ==> rules@[j].hostname is Some,
        decreases rules@.len() - i,
    {
        if rules[i].hostname.is_none() {
            return;
        }
        i = i + 1;
    }
    let ghost before = rules@;
    rules.push(IngressRule::catch_all());
    assert(rules@.take(before.len() as int) =~= before);
    assert(rules@[before.len() as int].hostname is None);
}

/// `true` when `r` is kept when `hosts` are removed: it is the catch-all or
/// routes a hostname not among them.
pub open spec fn kept_after_removal(r: IngressRule, hosts: Seq<Seq<char>>) -> bool {
    match r.hostname {
        Some(h) => !has_text(hosts, h@),
        None => true,
    }
}

/// The ingress rules without those of `hostnames`, keeping the others in
/// order; the catch-all rule is appended when none is left.  This is what
/// removing hosts after confirmation pushes.
pub fn ingress_without_hosts(current: &[IngressRule], hostnames: &[String]) -> (r: Vec<IngressRule>)
    ensures
        r@ == with_catch_all(
            current@.filter(|x: IngressRule| kept_after_removal(x, texts(hostnames@))),
            r@.last(),
        ),
        is_catch_all(r@.last()) || has_catch_all(
            current@.filter(|x: IngressRule| kept_after_removal(x, texts(hostnames@))),
        ),
        has_catch_all(r@),
        forall|i: int| 0 <= i < r@.len() ==> kept_after_removal(#[trigger] r@[i], texts(hostnames@)),
{
    let ghost u = texts(hostnames@);
    let ghost pred = |x: IngressRule| kept_after_removal(x, u);
    let mut out: Vec<IngressRule> = Vec::new();
    let mut j: usize = 0;
    proof {
        reveal(Seq::filter);
        assert(current@.take(0) =~= Seq::<IngressRule>::empty());
    }
    while j < current.len()
        invariant
            j <= current@.len(),
            u == texts(hostnames@),
            forall|x: IngressRule| #[trigger] pred(x) == kept_after_removal(x, u),
            out@ == current@.take(j as int).filter(pred),
            forall|i: int| 0 <= i < out@.len() ==> kept_after_removal(#[trigger] out@[i], u),
        decreases current@.len() - j,
    {
        let rule = &current[j];
        let keep = match &rule.hostname {
            Some(h) => !contains_text(hostnames, h.as_str()),
            None => true,
        };
        proof {
            assert(current@.take(j + 1) =~= current@.take(j as int).push(*rule));
            current@.take(j as int).lemma_filter_push(*rule, pred);
            assert(keep == kept_after_removal(*rule, u));
        }
        if keep {
            out.push(rule.duplicate());
        }
        j = j + 1;
    }
    assert(current@.take(current@.len() as int) =~= current@);
    let ghost kept = out@;
    ensure_catch_all(&mut out);
    proof {
        if !has_catch_all(kept) {
            assert(out@ =~= kept.push(out@.last()));
        }
        assert forall|i: int| 0 <= i < out@.len() implies kept_after_removal(#[trigger] out@[i], u) by {
            if i < kept.len() {
                assert(out@[i] == kept[i]);
            }
        }
    }
    out
}

/// The ingress rules with a rule for `tunnel` added: the catch-all rules are
/// dropped, the other rules kept in order, then the tunnel's rule and a
/// catch-all rule are appended.
pub fn ingress_with_added(current: &[IngressRule], tunnel: &TunnelConfig) -> (r: Vec<IngressRule>)
    ensures
        ({
            let named = current@.filter(|x: IngressRule| x.hostname is Some);
            &&& r@.len() == named.len() + 2
            &&& r@.take(named.len() as int) == named
            &&& rule_for(r@[named.len() as int], tunnel.domain@, tunnel.socket_path@)
            &&& is_catch_all(r@.last())
        }),
{
    let mut out = named_rules(current);
    let ghost named = out@;
    out.push(IngressRule::unix_socket(tunnel.domain.as_str(), tunnel.socket_path.as_str()));
    out.push(IngressRule::catch_all());
    assert(out@.take(named.len() as int) =~= named);
    out
}

/// Copies of the rules that have a hostname, in order.
fn named_rules(current: &[IngressRule]) -> (r: Vec<IngressRule>)
    ensures
        r@ == current@.filter(|x: IngressRule| x.hostname is Some),
{
    let ghost pred = |x: IngressRule| x.hostname is Some;
    let mut out: Vec<IngressRule> = Vec::new();
    let mut j: usize = 0;
    proof {
        reveal(Seq::filter);
        assert(current@.take(0) =~= Seq::<IngressRule>::empty());
    }
    while j < current.len()
        invariant
            j <= current@.len(),
            forall|x: IngressRule| #[trigger] pred(x) == x.hostname is Some,
            out@ == current@.take(j as int).filter(pred),
        decreases current@.len() - j,
    {
        let rule = &current[j];
        proof {
            assert(current@.take(j + 1) =~= current@.take(j as int).push(*rule));
            current@.take(j as int).lemma_filter_push(*rule, pred);
        }
        if rule.hostname.is_some() {
            out.push(rule.duplicate());
        }
        j = j + 1;
    }
    assert(current@.take(current@.len() as int) =~= current@);
    out
}

/// `true` when `r` routes exactly `domain`.
pub open spec fn routes(r: IngressRule, domain: Seq<char>) -> bool {
    opt_text(r.hostname) == Some(domain)
}

/// `true` when rule `r` has a hostname and it equals `domain`.
fn rule_routes(r: &IngressRule, domain: &str) -> (b: bool)
    ensures
        b == routes(*r, domain@),
{
    match &r.hostname {
        Some(h) => chars_eq(&str_chars(h.as_str()), &str_chars(domain)),
        None => false,
    }
}

/// The ingress rules without the rule of `domain`, with the catch-all rule
/// appended when none is left: what removing a single tunnel pushes.
pub fn ingress_without_domain(current: &[IngressRule], domain: &str) -> (r: Vec<IngressRule>)
    ensures
        r@ == with_catch_all(current@.filter(|x: IngressRule| !routes(x, domain@)), r@.last()),
        is_catch_all(r@.last()) || has_catch_all(current@.filter(|x: IngressRule| !routes(x, domain@))),
        has_catch_all(r@),
        forall|i: int| 0 <= i < r@.len() ==> !routes(#[trigger] r@[i], domain@),
{
    let ghost pred = |x: IngressRule| !routes(x, domain@);
    let mut out: Vec<IngressRule> = Vec::new();
    let mut j: usize = 0;
    proof {
        reveal(Seq::filter);
        assert(current@.take(0) =~= Seq::<IngressRule>::empty());
    }
    while j < current.len()
        invariant
            j <= current@.len(),
            forall|x: IngressRule| #[trigger] pred(x) == !routes(x, domain@),
            out@ == current@.take(j as int).filter(pred),
            forall|i: int| 0 <= i < out@.len() ==> !routes(#[trigger] out@[i], domain@),
        decreases current@.len() - j,
    {
        let rule = &current[j];
        let drop = rule_routes(rule, domain);
        proof {
            assert(current@.take(j + 1) =~= current@.take(j as int).push(*rule));
            current@.take(j as int).lemma_filter_push(*rule, pred);
        }
        if !drop {
            out.push(rule.duplicate());
        }
        j = j + 1;
    }
    assert(current@.take(current@.len() as int) =~= current@);
    let ghost kept = out@;
    ensure_catch_all(&mut out);
    proof {
        if !has_catch_all(kept) {
            assert(out@ =~= kept.push(out@.last()));
        }
        assert forall|i: int| 0 <= i < out@.len() implies !routes(#[trigger] out@[i], domain@) by {
            if i < kept.len() {
                assert(out@[i] == kept[i]);
            }
        }
    }
    out
}

/// The ingress rules after a tunnel changed from `old_domain`: the first rule
/// of `old_domain` is replaced by the tunnel's rule in place; when there is
/// none, the catch-all rules are dropped and the tunnel's rule and a
/// catch-all rule are appended.
pub fn ingress_with_updated(current: &[IngressRule], old_domain: &str, tunnel: &TunnelConfig) -> (r: Vec<IngressRule>)
    ensures
        match first_route(current@, old_domain@) {
            Some(k) => {
                &&& r@.len() == current@.len()
                &&& forall|i: int| 0 <= i < r@.len() && i != k ==> r@[i] == current@[i]
                &&& rule_for(r@[k], tunnel.domain@, tunnel.socket_path@)
            },
            None => {
                let named = current@.filter(|x: IngressRule| x.hostname is Some);
                &&& r@.len() == named.len() + 2
                &&& r@.take(named.len() as int) == named
                &&& rule_for(r@[named.len() as int], tunnel.domain@, tunnel.socket_path@)
                &&& is_catch_all(r@.last())
            },
        },
{
    let mut k: usize = 0;
    while k < current.len()
        invariant
            k <= current@.len(),
            forall|j: int| 0 <= j < k ==> !routes(current@[j], old_domain@),
        decreases current@.len() - k,
    {
        if rule_routes(&current[k], old_domain) {
            proof {
                assert(first_routes_at(current@, old_domain@, k as int));
                let c = choose|i: int| first_routes_at(current@, old_domain@, i);
                assert(first_routes_at(current@, old_domain@, c));
                if c < k {
                    assert(!routes(current@[c], old_domain@));
                }
                if (k as int) < c {
                    assert(!routes(current@[k as int], old_domain@));
                }
            }
            let mut out: Vec<IngressRule> = Vec::new();
            let mut i: usize = 0;
            while i < current.len()
                invariant
                    i <= current@.len(),
                    k < current@.len(),
                    out@.len() == i,
                    forall|j: int| 0 <= j < i && j != k ==> out@[j] == current@[j],
                    k < i ==> rule_for(out@[k as int], tunnel.domain@, tunnel.socket_path@),
                decreases current@.len() - i,
            {
                if i == k {
                    out.push(IngressRule::unix_socket(tunnel.domain.as_str(), tunnel.socket_path.as_str()));
                } else {
                    out.push(current[i].duplicate());
                }
                i = i + 1;
            }
            return out;
        }
        k = k + 1;
    }
    proof {
        assert forall|i: int| !first_routes_at(current@, old_domain@, i) by {
            if first_routes_at(current@, old_domain@, i) {
                assert(!routes(current@[i], old_domain@));
            }
        }
    }
    ingress_with_added(current, tunnel)
}

/// `true` when `k` is the first rule of `rules` routing `domain`.
pub open spec fn first_routes_at(rules: Seq<IngressRule>, domain: Seq<char>, k: int) -> bool {
    0 <= k < rules.len() && routes(rules[k], domain) && forall|j: int| 0 <= j < k ==> !routes(rules[j], domain)
}

/// The first rule of `rules` routing `domain`.
pub open spec fn first_route(rules: Seq<IngressRule>, domain: Seq<char>) -> Option<int> {
    if exists|k: int| first_routes_at(rules, domain, k) {
        Some(choose|k: int| first_routes_at(rules, domain, k))
    } else {
        None
    }
}

/// `true` when `k` is the first record of `records` named `name`.
pub open spec fn first_record_at(records: Seq<DnsRecord>, name: Seq<char>, k: int) -> bool {
    0 <= k < records.len() && records[k].name@ == name && forall|j: int|
        0 <= j < k ==> records[j].name@ != name
}

/// The id of the first DNS record named `name`: the record removing or
/// renaming a single tunnel deletes.
pub fn find_dns_record(records: &[DnsRecord], name: &str) -> (r: Option<String>)
    ensures
        match r {
            Some(id) => exists|k: int| first_record_at(records@, name@, k) && records@[k].id@ == id@,
            None => forall|k: int| 0 <= k < records@.len() ==> records@[k].name@ != name@,
        },
{
    let target = str_chars(name);
    let mut k: usize = 0;
    while k < records.len()
        invariant
            k <= records@.len(),
            target@ == name@,
            forall|j: int| 0 <= j < k ==> records@[j].name@ != name@,
        decreases records@.len() - k,
    {
        if chars_eq(&str_chars(records[k].name.as_str()), &target) {
            assert(first_record_at(records@, name@, k as int));
            return Some(records[k].id.clone());
        }
        k = k + 1;
    }
    None
}

/// `true` when `k` is the last record of `records` named `name`.
pub open spec fn last_record_at(records: Seq<DnsRecord>, name: Seq<char>, k: int) -> bool {
    0 <= k < records.len() && records[k].name@ == name && forall|j: int|
        k < j < records.len() ==> records[j].name@ != name
}

/// The id of the last DNS record named `name`, if any.
pub open spec fn record_id_for(records: Seq<DnsRecord>, name: Seq<char>) -> Option<Seq<char>> {
    if exists|k: int| last_record_at(records, name, k) {
        Some(records[choose|k: int| last_record_at(records, name, k)].id@)
    } else {
        None
    }
}

/// For each hostname with a DNS record, in order: the hostname and the id of
/// its last record.
pub open spec fn deletions(records: Seq<DnsRecord>, hs: Seq<Seq<char>>) -> Seq<(Seq<char>, Seq<char>)>
    decreases hs.len(),
{
    if hs.len() == 0 {
        Seq::empty()
    } else {
        let r = deletions(records, hs.drop_last());
        match record_id_for(records, hs.last()) {
            Some(id) => r.push((hs.last(), id)),
            None => r,
        }
    }
}

/// The texts of a list of string pairs.
pub open spec fn pair_texts(v: Seq<(String, String)>) -> Seq<(Seq<char>, Seq<char>)> {
    v.map_values(|p: (String, String)| (p.0@, p.1@))
}

/// Position of the last record named `name`.
fn find_last_record(records: &[DnsRecord], name: &str) -> (r: Option<usize>)
    ensures
        match r {
            Some(k) => k < records@.len() && record_id_for(records@, name@) == Some(
                records@[k as int].id@,
            ),
            None => record_id_for(records@, name@) is None,
        },
{
    let target = str_chars(name);
    let mut k: usize = records.len();
    while k > 0
        invariant
            k <= records@.len(),
            target@ == name@,
            forall|j: int| k <= j < records@.len() ==> records@[j].name@ != name@,
        decreases k,
    {
        k = k - 1;
        if chars_eq(&str_chars(records[k].name.as_str()), &target) {
            proof {
                assert(last_record_at(records@, name@, k as int));
                let c = choose|i: int| last_record_at(records@, name@, i);
                assert(last_record_at(records@, name@, c));
                if c < k {
                    assert(records@[k as int].name@ != name@);
                }
                if (k as int) < c {
                    assert(records@[c].name@ != name@);
                }
            }
            return Some(k);
        }
    }
    proof {
        assert forall|i: int| !last_record_at(records@, name@, i) by {
            if last_record_at(records@, name@, i) {
                assert(records@[i].name@ != name@);
            }
        }
    }
    None
}

/// For each hostname to remove that has a DNS record, in order, the hostname
/// and the id of its record (the last of that name): the records removing
/// hosts after confirmation deletes.
pub fn dns_records_to_delete(records: &[DnsRecord], hostnames: &[String]) -> (r: Vec<(String, String)>)
    ensures
        pair_texts(r@) == deletions(records@, texts(hostnames@)),
{
    let ghost hs = texts(hostnames@);
    let mut out: Vec<(String, String)> = Vec::new();
    let mut i: usize = 0;
    assert(hs.take(0) =~= Seq::<Seq<char>>::empty());
    while i < hostnames.len()
        invariant
            hs == texts(hostnames@),
            i <= hostnames@.len(),
            pair_texts(out@) =~= deletions(records@, hs.take(i as int)),
        decreases hostnames@.len() - i,
    {
        assert(hs.take(i + 1).drop_last() =~= hs.take(i as int));
        assert(hs.take(i + 1).last() == hostnames@[i as int]@);
        match find_last_record(records, hostnames[i].as_str()) {
            Some(k) => {
                let ghost before = out@;
                out.push((hostnames[i].clone(), records[k].id.clone()));
                assert(pair_texts(out@) =~= pair_texts(before).push(
                    (hostnames@[i as int]@, records@[k as int].id@),
                ));
            },
            None => {},
        }
        i = i + 1;
    }
    assert(hs.take(hostnames@.len() as int) =~= hs);
    out
}

/// Records the credentials of a newly created tunnel in the Cloudflare
/// settings of `config`; a configuration without Cloudflare settings is left
/// unchanged.
pub fn set_tunnel_credentials(config: &mut Config, tunnel_id: String, tunnel_token: String)
    ensures
        final(config).tunnels == old(config).tunnels,
        match old(config).cloudflare {
            Some(cf) => final(config).cloudflare matches Some(n) && opt_text(n.tunnel_id) == Some(
                tunnel_id@,
            ) && opt_text(n.tunnel_token) == Some(tunnel_token@) && n.api_token == cf.api_token
                && n.account_id == cf.account_id && n.zone_id == cf.zone_id && n.tunnel_name
                == cf.tunnel_name,
            None => final(config).cloudflare is None,
        },
{
    match &mut config.cloudflare {
        Some(cf) => {
            cf.tunnel_id = Some(tunnel_id);
            cf.tunnel_token = Some(tunnel_token);
        },
        None => {},
    }
}


/// Whether updating a tunnel moves its DNS record: when its domain changed,
/// the record of `old_domain` is deleted and one for the new domain created.
pub fn update_moves_dns(old_domain: &str, tunnel: &TunnelConfig) -> (r: bool)
    ensures
        r == (old_domain@ != tunnel.domain@),
{
    !chars_eq(&str_chars(old_domain), &str_chars(tunnel.domain.as_str()))
}

/// `partial failure removing hosts: `
pub open spec fn partial_failure_prefix() -> Seq<char> {
    seq![
        'p', 'a', 'r', 't', 'i', 'a', 'l', ' ', 'f', 'a', 'i', 'l', 'u', 'r', 'e', ' ', 'r', 'e',
        'm', 'o', 'v', 'i', 'n', 'g', ' ', 'h', 'o', 's', 't', 's', ':', ' ',
    ]
}

/// `operation: detail`, the form in which a failed call is reported.
pub open spec fn failure_text(operation: Seq<char>, detail: Seq<char>) -> Seq<char> {
    operation + seq![':', ' '] + detail
}

/// The texts joined by `"; "`.
fn join_texts(ms: &Vec<String>) -> (r: Vec<char>)
    ensures
        r@ == join_semicolon(texts(ms@)),
{
    let ghost all = texts(ms@);
    let mut out: Vec<char> = Vec::new();
    let mut i: usize = 0;
    assert(all.take(0) =~= Seq::<Seq<char>>::empty());
    while i < ms.len()
        invariant
            all == texts(ms@),
            i <= ms@.len(),
            out@ == join_semicolon(all.take(i as int)),
        decreases ms@.len() - i,
    {
        if i > 0 {
            out.push(';');
            out.push(' ');
        }
        append_str(&mut out, ms[i].as_str());
        proof {
            let t = all.take(i + 1);
            assert(t.drop_last() =~= all.take(i as int));
            assert(t.last() == ms@[i as int]@);
            if i == 0 {
                assert(join_semicolon(all.take(0)) =~= Seq::<char>::empty());
                assert(t.len() == 1);
                assert(out@ =~= t[0]);
            } else {
                assert(out@ =~= join_semicolon(t.drop_last()) + seq![';', ' '] + t.last());
            }
        }
        i = i + 1;
    }
    assert(all.take(ms@.len() as int) =~= all);
    out
}

/// What removing hosts answers once its calls were made: the hostnames when
/// no call failed, else the failures joined by `"; "` after `partial failure
/// removing hosts: `.  (With no hostnames nothing is called and nothing
/// fails, so the answer is the empty list.)
pub fn removal_outcome(hostnames: &[String], errors: &Vec<String>) -> (r: Result<Vec<String>, String>)
    ensures
        errors@.len() == 0 ==> (r matches Ok(v) && v@ == hostnames@),
        errors@.len() > 0 ==> (r matches Err(e) && e@ == partial_failure_prefix() + join_semicolon(
            texts(errors@),
        )),
{
    if errors.len() == 0 {
        let mut v: Vec<String> = Vec::new();
        let mut i: usize = 0;
        while i < hostnames.len()
            invariant
                i <= hostnames@.len(),
                v@ == hostnames@.take(i as int),
            decreases hostnames@.len() - i,
        {
            v.push(hostnames[i].clone());
            assert(hostnames@.take(i + 1) =~= hostnames@.take(i as int).push(hostnames@[i as int]));
            i = i + 1;
        }
        assert(hostnames@.take(hostnames@.len() as int) =~= hostnames@);
        return Ok(v);
    }
    let mut out: Vec<char> = Vec::new();
    append_chars(
        &mut out,
        &[
            'p', 'a', 'r', 't', 'i', 'a', 'l', ' ', 'f', 'a', 'i', 'l', 'u', 'r', 'e', ' ', 'r', 'e',
            'm', 'o', 'v', 'i', 'n', 'g', ' ', 'h', 'o', 's', 't', 's', ':', ' ',
        ],
    );
    let joined = join_texts(errors);
    append_chars(&mut out, &joined);
    Err(string_from_chars(&out))
}

/// Records that the call `operation` failed with `detail`: `operation:
/// detail` is appended to the error list.
pub fn push_failure(errors: &mut Vec<String>, operation: &str, detail: &str)
    ensures
        texts(final(errors)@) == texts(old(errors)@).push(failure_text(operation@, detail@)),
{
    let mut out: Vec<char> = Vec::new();
    append_str(&mut out, operation);
    append_chars(&mut out, &[':', ' ']);
    append_str(&mut out, detail);
    let ghost before = errors@;
    errors.push(string_from_chars(&out));
    assert(texts(errors@) =~= texts(before).push(failure_text(operation@, detail@)));
}

/// `create_dns_cname(host)`, the operation named when creating a host's DNS
/// record fails.
pub open spec fn dns_operation(host: Seq<char>) -> Seq<char> {
    seq!['c', 'r', 'e', 'a', 't', 'e', '_', 'd', 'n', 's', '_', 'c', 'n', 'a', 'm', 'e', '(']
        + host + seq![')']
}

/// Records in a sync report what came of creating the DNS record of `host`:
/// the host is added when it succeeded, else `create_dns_cname(host): error`
/// joins the errors.
pub fn record_dns_outcome(report: &mut SyncReport, host: String, error: Option<String>)
    ensures
        final(report).removed == old(report).removed,
        final(report).unknown_hosts == old(report).unknown_hosts,
        match error {
            None => texts(final(report).added@) == texts(old(report).added@).push(host@)
                && final(report).errors == old(report).errors,
            Some(e) => final(report).added == old(report).added && texts(final(report).errors@)
                == texts(old(report).errors@).push(failure_text(dns_operation(host@), e@)),
        },
{
    match error {
        None => {
            let ghost before = report.added@;
            report.added.push(host);
            assert(texts(report.added@) =~= texts(before).push(host@));
        },
        Some(e) => {
            let mut op: Vec<char> = Vec::new();
            append_chars(
                &mut op,
                &['c', 'r', 'e', 'a', 't', 'e', '_', 'd', 'n', 's', '_', 'c', 'n', 'a', 'm', 'e', '('],
            );
            append_str(&mut op, host.as_str());
            op.push(')');
            assert(op@ =~= dns_operation(host@));
            let mut out: Vec<char> = Vec::new();
            append_chars(&mut out, &op);
            append_chars(&mut out, &[':', ' ']);
            append_str(&mut out, e.as_str());
            assert(out@ =~= failure_text(dns_operation(host@), e@));
            let ghost before = report.errors@;
            report.errors.push(string_from_chars(&out));
            assert(texts(report.errors@) =~= texts(before).push(failure_text(dns_operation(host@), e@)));
        },
    }
}


/// What a sync pushes keeps Cloudflare routing intact: the catch-all rule is
/// the last rule and the only one without a hostname, every desired tunnel is
/// routed to its socket, and every current rule of an unknown host is kept as
/// it was, so nothing is removed before the user confirms it.
pub proof fn lemma_sync_ingress_routes(
    ingress: Seq<IngressRule>,
    desired: Seq<&TunnelConfig>,
    current: Seq<IngressRule>,
    unknown: Seq<Seq<char>>,
)
    requires
        is_sync_ingress(ingress, desired, current, unknown),
    ensures
        ingress.len() >= 1,
        is_catch_all(ingress.last()),
        forall|k: int| 0 <= k < ingress.len() - 1 ==> (#[trigger] ingress[k]).hostname is Some,
        forall|i: int|
            0 <= i < desired.len() ==> rule_for(
                ingress[i],
                (#[trigger] desired[i]).domain@,
                desired[i].socket_path@,
            ),
        forall|j: int|
            0 <= j < current.len() && routes_one_of(#[trigger] current[j], unknown) ==> ingress.contains(
                current[j],
            ),
{
    let pred = |r: IngressRule| routes_one_of(r, unknown);
    let kept = current.filter(pred);
    assert(kept == unknown_rules(current, unknown));
    assert forall|k: int| 0 <= k < ingress.len() - 1 implies (#[trigger] ingress[k]).hostname is Some by {
        if k < desired.len() {
            assert(rule_for(ingress[k], desired[k].domain@, desired[k].socket_path@));
        } else {
            let j = k - desired.len();
            assert(ingress[desired.len() + j] == kept[j]);
            current.lemma_filter_pred(pred, j);
        }
    }
    assert forall|j: int|
        0 <= j < current.len() && routes_one_of(#[trigger] current[j], unknown) implies ingress.contains(
        current[j],
    ) by {
        current.lemma_filter_contains(pred, j);
        let m = choose|m: int| 0 <= m < kept.len() && kept[m] == current[j];
        assert(ingress[desired.len() + m] == kept[m]);
    }
}

} // verus!
