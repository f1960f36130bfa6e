//! The decisions behind the web UI's commands: tunnel creation, update and
//! deletion on the configured list, the Cloudflare status, replay requests
//! checked and prepared for sending, and stored traffic with its binary
//! fields in base64 for the browser.
use base64::Engine as _;
use vstd::prelude::*;

use vstd::utf8::{decode_utf8, valid_utf8};

use crate::cloudflared::utf8_strict;
use crate::config::{CloudflareConfig, TunnelConfig};
use crate::storage::{
    Headers, QueryFilter, RequestExchange, StoredRequest, StoredResponse, StoredWebSocketMessage,
    WebSocketMessageType, header_pairs,
};
use crate::sync::SyncReport;
use crate::text::{
    append_chars, append_str, chars_eq, push_decimal, spec_to_lowercase, str_chars,
    string_from_chars, to_lowercase, decimal_text,
};

verus! {

/// Metadata about a configured tunnel.
#[derive(Clone, Debug)]
pub struct TunnelInfo {
    pub name: String,
    pub domain: String,
    pub socket_path: String,
    /// Local TCP port the tunnel forwards to.
    pub destination: u16,
    /// Whether the tunnel is enabled on Cloudflare.
    pub enabled: bool,
}

/// A request to create a tunnel.
#[derive(Clone, Debug)]
pub struct CreateTunnelRequest {
    pub name: String,
    pub domain: String,
    /// Socket path; `/tmp/tunneldesk-<name>.sock` when absent.
    pub socket_path: Option<String>,
    pub target_port: u16,
}

/// A request to change a tunnel; absent fields keep their value.
#[derive(Clone, Debug)]
pub struct UpdateTunnelRequest {
    pub name: String,
    pub domain: Option<String>,
    pub socket_path: Option<String>,
    pub target_port: Option<u16>,
    pub enabled: Option<bool>,
}

/// A request to delete a tunnel.
#[derive(Clone, Debug)]
pub struct DeleteTunnelRequest {
    pub name: String,
}

/// Hosts the user confirmed for removal from Cloudflare.
#[derive(Clone, Debug)]
pub struct ConfirmRemoveHostsRequest {
    pub hosts: Vec<String>,
}

/// The answer to a deletion.
#[derive(Clone, Debug)]
pub struct TunnelDeletedResponse {
    pub name: String,
}

/// Whether a completed exchange is pushed to a browser that subscribed with
/// `filter`: without a subscription filter every exchange is, else those it
/// matches.
pub fn should_push_exchange(filter: &Option<QueryFilter>, exchange: &RequestExchange) -> (r: bool)
    ensures
        r == match filter {
            Some(f) => f.spec_matches(exchange@),
            None => true,
        },
{
    match filter {
        Some(f) => f.matches(exchange),
        None => true,
    }
}

/// The result of a sync, for the browser.
#[derive(Clone, Debug)]
pub struct SyncReportResponse {
    pub added: Vec<String>,
    pub removed: Vec<String>,
    pub unknown_hosts: Vec<String>,
    pub errors: Vec<String>,
}

/// Hosts found on Cloudflare but absent from the local configuration.
#[derive(Clone, Debug)]
pub struct UnknownHostsFoundResponse {
    pub hosts: Vec<String>,
}

/// The state of the Cloudflare integration.
#[derive(Clone, Debug)]
pub struct CloudflareStatusResponse {
    pub configured: bool,
    pub tunnel_id: Option<String>,
    pub tunnel_name: Option<String>,
    pub service_running: bool,
}

/// A request to send again, from the browser.
#[derive(Clone, Debug)]
pub struct ReplayRequestPayload {
    pub tunnel_name: String,
    pub method: String,
    pub url: String,
    pub headers: Headers,
    /// Base64-encoded body.
    pub body: String,
}

/// The answer to a replay: the id of the stored exchange, or an error.
#[derive(Clone, Debug)]
pub struct ReplayResponsePayload {
    pub id: Option<String>,
    pub error: Option<String>,
}

/// The metadata the browser sees of a tunnel.
pub fn tunnel_info_from_config(t: &TunnelConfig) -> (r: TunnelInfo)
    ensures
        r.name@ == t.name@,
        r.domain@ == t.domain@,
        r.socket_path@ == t.socket_path@,
        r.destination == t.target_port,
        r.enabled == t.enabled,
{
    TunnelInfo {
        name: t.name.clone(),
        domain: t.domain.clone(),
        socket_path: t.socket_path.clone(),
        destination: t.target_port,
        enabled: t.enabled,
    }
}

/// `true` when `k` is the first tunnel of `ts` named `name`.
pub open spec fn first_named(ts: Seq<TunnelConfig>, name: Seq<char>, k: int) -> bool {
    0 <= k < ts.len() && ts[k].name@ == name && forall|j: int| 0 <= j < k ==> ts[j].name@ != name
}

/// `true` when some tunnel of `ts` is named `name`.
pub open spec fn has_named(ts: Seq<TunnelConfig>, name: Seq<char>) -> bool {
    exists|k: int| 0 <= k < ts.len() && ts[k].name@ == name
}

/// Position of the first tunnel named `name`.
pub fn find_tunnel(tunnels: &Vec<TunnelConfig>, name: &str) -> (r: Option<usize>)
    ensures
        match r {
            Some(k) => first_named(tunnels@, name@, k as int),
            None => !has_named(tunnels@, name@),
        },
{
    let target = str_chars(name);
    let mut k: usize = 0;
    while k < tunnels.len()
        invariant
            k <= tunnels@.len(),
            target@ == name@,
            forall|j: int| 0 <= j < k ==> tunnels@[j].name@ != name@,
        decreases tunnels@.len() - k,
    {
        if chars_eq(&str_chars(tunnels[k].name.as_str()), &target) {
            return Some(k);
        }
        k = k + 1;
    }
    None
}

/// `A tunnel named '<name>' already exists`.
pub open spec fn duplicate_name_message(name: Seq<char>) -> Seq<char> {
    seq!['A', ' ', 't', 'u', 'n', 'n', 'e', 'l', ' ', 'n', 'a', 'm', 'e', 'd', ' ', '\''] + name
        + seq!['\'', ' ', 'a', 'l', 'r', 'e', 'a', 'd', 'y', ' ', 'e', 'x', 'i', 's', 't', 's']
}

/// `Tunnel '<name>' not found`.
pub open spec fn not_found_message(name: Seq<char>) -> Seq<char> {
    seq!['T', 'u', 'n', 'n', 'e', 'l', ' ', '\''] + name + seq![
        '\'',
        ' ',
        'n',
        'o',
        't',
        ' ',
        'f',
        'o',
        'u',
        'n',
        'd',
    ]
}

/// `/tmp/tunneldesk-<name>.sock`, the socket of a tunnel created without one.
pub open spec fn default_socket_path(name: Seq<char>) -> Seq<char> {
    seq!['/', 't', 'm', 'p', '/', 't', 'u', 'n', 'n', 'e', 'l', 'd', 'e', 's', 'k', '-'] + name
        + seq!['.', 's', 'o', 'c', 'k']
}

fn not_found_error(name: &str) -> (r: String)
    ensures
        r@ == not_found_message(name@),
{
    let mut out: Vec<char> = Vec::new();
    append_chars(&mut out, &['T', 'u', 'n', 'n', 'e', 'l', ' ', '\'']);
    append_str(&mut out, name);
    append_chars(&mut out, &['\'', ' ', 'n', 'o', 't', ' ', 'f', 'o', 'u', 'n', 'd']);
    assert(out@ =~= not_found_message(name@));
    string_from_chars(&out)
}

/// Adds the tunnel `req` describes to `tunnels`, enabled, with the default
/// socket path when none is given, and returns its metadata.  Refused, with
/// the list unchanged, when a tunnel of that name exists.
pub fn create_tunnel(tunnels: &mut Vec<TunnelConfig>, req: CreateTunnelRequest) -> (r: Result<TunnelInfo, String>)
    ensures
        has_named(old(tunnels)@, req.name@) ==> (r matches Err(e) && e@ == duplicate_name_message(
            req.name@,
        )) && final(tunnels)@ == old(tunnels)@,
        !has_named(old(tunnels)@, req.name@) ==> ({
            let t = final(tunnels)@.last();
            &&& final(tunnels)@.len() == old(tunnels)@.len() + 1
            &&& final(tunnels)@.take(old(tunnels)@.len() as int) == old(tunnels)@
            &&& t.name@ == req.name@
            &&& t.domain@ == req.domain@
            &&& t.socket_path@ == match req.socket_path {
                Some(p) => p@,
                None => default_socket_path(req.name@),
            }
            &&& t.target_port == req.target_port
            &&& t.enabled
            &&& r matches Ok(info) && info.name@ == t.name@ && info.domain@ == t.domain@
                && info.socket_path@ == t.socket_path@ && info.destination == t.target_port
                && info.enabled
        }),
{
    if find_tunnel(tunnels, req.name.as_str()).is_some() {
        let mut out: Vec<char> = Vec::new();
        append_chars(
            &mut out,
            &['A', ' ', 't', 'u', 'n', 'n', 'e', 'l', ' ', 'n', 'a', 'm', 'e', 'd', ' ', '\''],
        );
        append_str(&mut out, req.name.as_str());
        append_chars(
            &mut out,
            &['\'', ' ', 'a', 'l', 'r', 'e', 'a', 'd', 'y', ' ', 'e', 'x', 'i', 's', 't', 's'],
        );
        assert(out@ =~= duplicate_name_message(req.name@));
        return Err(string_from_chars(&out));
    }
    let socket_path = match req.socket_path {
        Some(p) => p,
        None => {
            let mut out: Vec<char> = Vec::new();
            append_chars(
                &mut out,
                &['/', 't', 'm', 'p', '/', 't', 'u', 'n', 'n', 'e', 'l', 'd', 'e', 's', 'k', '-'],
            );
            append_str(&mut out, req.name.as_str());
            append_chars(&mut out, &['.', 's', 'o', 'c', 'k']);
            assert(out@ =~= default_socket_path(req.name@));
            string_from_chars(&out)
        },
    };
    let new_tunnel = TunnelConfig {
        name: req.name,
        domain: req.domain,
        socket_path,
        target_port: req.target_port,
        enabled: true,
    };
    let info = tunnel_info_from_config(&new_tunnel);
    let ghost before = tunnels@;
    tunnels.push(new_tunnel);
    assert(tunnels@.take(before.len() as int) =~= before);
    Ok(info)
}

/// What Cloudflare needs after a tunnel changed.
#[derive(Debug, Clone, Copy, PartialEq, Eq, Structural)]
pub enum CloudflareChange {
    /// The tunnel was disabled: remove its old domain.
    Remove,
    /// The tunnel was enabled again: add it.
    Add,
    /// The domain of an enabled tunnel changed: move it.
    Update,
    /// Nothing to do.
    Keep,
}

/// The change Cloudflare needs: removal when the tunnel was disabled, addition
/// when it was enabled, an update when an enabled tunnel's domain changed.
pub open spec fn spec_cloudflare_change(
    old_enabled: bool,
    new_enabled: bool,
    old_domain: Seq<char>,
    new_domain: Seq<char>,
) -> CloudflareChange {
    if old_enabled != new_enabled && !new_enabled {
        CloudflareChange::Remove
    } else if old_enabled != new_enabled && new_enabled {
        CloudflareChange::Add
    } else if new_enabled && old_domain != new_domain {
        CloudflareChange::Update
    } else {
        CloudflareChange::Keep
    }
}

/// What an update asks of Cloudflare follows the tunnel's state before and
/// after: a tunnel disabled before and after is not touched; disabling
/// removes it, enabling adds it; a tunnel enabled before and after is moved
/// exactly when its domain changed.
pub proof fn lemma_cloudflare_change_follows_state(
    old_enabled: bool,
    new_enabled: bool,
    old_domain: Seq<char>,
    new_domain: Seq<char>,
)
    ensures
        !old_enabled && !new_enabled ==> spec_cloudflare_change(old_enabled, new_enabled, old_domain, new_domain)
            == CloudflareChange::Keep,
        old_enabled && !new_enabled ==> spec_cloudflare_change(old_enabled, new_enabled, old_domain, new_domain)
            == CloudflareChange::Remove,
        !old_enabled && new_enabled ==> spec_cloudflare_change(old_enabled, new_enabled, old_domain, new_domain)
            == CloudflareChange::Add,
        old_enabled && new_enabled ==> spec_cloudflare_change(old_enabled, new_enabled, old_domain, new_domain)
            == if old_domain != new_domain {
            CloudflareChange::Update
        } else {
            CloudflareChange::Keep
        },
{
}

/// The outcome of a tunnel update: the new settings, the domain they replace,
/// what Cloudflare needs, and whether the local proxy stops (the tunnel was
/// disabled) rather than restarts.
#[derive(Clone, Debug)]
pub struct TunnelUpdate {
    pub info: TunnelInfo,
    pub updated: TunnelConfig,
    pub old_domain: String,
    pub cloudflare: CloudflareChange,
    pub stop: bool,
}

/// Applies `req` to the first tunnel of its name: each given field replaces
/// the old value.  Returns the new settings and the follow-up actions; an
/// error, with the list unchanged, when no tunnel has that name.
pub fn update_tunnel(tunnels: &mut Vec<TunnelConfig>, req: UpdateTunnelRequest) -> (r: Result<TunnelUpdate, String>)
    ensures
        match r {
            Err(e) => !has_named(old(tunnels)@, req.name@) && e@ == not_found_message(req.name@)
                && final(tunnels)@ == old(tunnels)@,
            Ok(u) => exists|k: int|
                {
                    let o = #[trigger] old(tunnels)@[k];
                    &&& first_named(old(tunnels)@, req.name@, k)
                    &&& final(tunnels)@ == old(tunnels)@.update(k, u.updated)
                    &&& u.updated.name@ == o.name@
                    &&& u.updated.domain@ == (match req.domain {
                        Some(d) => d@,
                        None => o.domain@,
                    })
                    &&& u.updated.socket_path@ == (match req.socket_path {
                        Some(p) => p@,
                        None => o.socket_path@,
                    })
                    &&& u.updated.target_port == (match req.target_port {
                        Some(p) => p,
                        None => o.target_port,
                    })
                    &&& u.updated.enabled == (match req.enabled {
                        Some(e) => e,
                        None => o.enabled,
                    })
                    &&& u.old_domain@ == o.domain@
                    &&& u.cloudflare == spec_cloudflare_change(
                        o.enabled,
                        u.updated.enabled,
                        o.domain@,
                        u.updated.domain@,
                    )
                    &&& u.stop == (o.enabled && !u.updated.enabled)
                    &&& u.info.name@ == u.updated.name@ && u.info.domain@ == u.updated.domain@
                        && u.info.socket_path@ == u.updated.socket_path@ && u.info.destination
                        == u.updated.target_port && u.info.enabled == u.updated.enabled
                },
        },
{
    let k = match find_tunnel(tunnels, req.name.as_str()) {
        Some(k) => k,
        None => {
            return Err(not_found_error(req.name.as_str()));
        },
    };
    let prev = tunnels[k].duplicate();
    let old_domain = prev.domain.clone();
    let updated = TunnelConfig {
        name: prev.name,
        domain: match req.domain {
            Some(d) => d,
            None => prev.domain,
        },
        socket_path: match req.socket_path {
            Some(p) => p,
            None => prev.socket_path,
        },
        target_port: match req.target_port {
            Some(p) => p,
            None => prev.target_port,
        },
        enabled: match req.enabled {
            Some(e) => e,
            None => prev.enabled,
        },
    };
    let info = tunnel_info_from_config(&updated);
    let old_enabled = tunnels[k].enabled;
    let enabled_changed = updated.enabled != old_enabled;
    let domain_changed = !chars_eq(
        &str_chars(updated.domain.as_str()),
        &str_chars(old_domain.as_str()),
    );
    let cloudflare = if enabled_changed && !updated.enabled {
        CloudflareChange::Remove
    } else if enabled_changed && updated.enabled {
        CloudflareChange::Add
    } else if updated.enabled && domain_changed {
        CloudflareChange::Update
    } else {
        CloudflareChange::Keep
    };
    let stop = old_enabled && !updated.enabled;
    let stored = updated.duplicate();
    let ghost o = tunnels@[k as int];
    tunnels.set(k, stored);
    let u = TunnelUpdate { info, updated, old_domain, cloudflare, stop };
    proof {
        assert(o == old(tunnels)@[k as int]);
        assert(tunnels@ =~= old(tunnels)@.update(k as int, tunnels@[k as int]));
    }
    Ok(u)
}


/// `true` when a tunnel is named `name`.
pub open spec fn named(t: TunnelConfig, name: Seq<char>) -> bool {
    t.name@ == name
}

/// Removes every tunnel named `name` and returns the first of them; an error,
/// with the list unchanged, when none has that name.
pub fn delete_tunnel(tunnels: &mut Vec<TunnelConfig>, name: &str) -> (r: Result<TunnelConfig, String>)
    ensures
        match r {
            Err(e) => !has_named(old(tunnels)@, name@) && e@ == not_found_message(name@)
                && final(tunnels)@ == old(tunnels)@,
            Ok(t) => {
                &&& exists|k: int| first_named(old(tunnels)@, name@, k) && #[trigger] old(tunnels)@[k] == t
                &&& final(tunnels)@ == old(tunnels)@.filter(|x: TunnelConfig| !named(x, name@))
            },
        },
{
    let k = match find_tunnel(tunnels, name) {
        Some(k) => k,
        None => {
            return Err(not_found_error(name));
        },
    };
    let removed = tunnels[k].duplicate();
    let target = str_chars(name);
    let ghost src = tunnels@;
    let ghost pred = |x: TunnelConfig| !named(x, name@);
    let mut out: Vec<TunnelConfig> = Vec::new();
    let mut j: usize = 0;
    proof {
        reveal(Seq::filter);
        assert(src.take(0) =~= Seq::<TunnelConfig>::empty());
    }
    while j < tunnels.len()
        invariant
            src == tunnels@,
            j <= src.len(),
            target@ == name@,
            forall|x: TunnelConfig| #[trigger] pred(x) == !named(x, name@),
            out@ == src.take(j as int).filter(pred),
        decreases src.len() - j,
    {
        let t = &tunnels[j];
        let drop = chars_eq(&str_chars(t.name.as_str()), &target);
        proof {
            assert(src.take(j + 1) =~= src.take(j as int).push(*t));
            src.take(j as int).lemma_filter_push(*t, pred);
        }
        if !drop {
            out.push(t.duplicate());
        }
        j = j + 1;
    }
    assert(src.take(src.len() as int) =~= src);
    *tunnels = out;
    Ok(removed)
}

/// The state of the Cloudflare integration: configured when there are
/// Cloudflare settings, with their tunnel id and name; the service counts as
/// running only when configured.
pub fn cloudflare_status(cloudflare: &Option<CloudflareConfig>, service_running: bool) -> (r: CloudflareStatusResponse)
    ensures
        r.configured == cloudflare is Some,
        match cloudflare {
            Some(cf) => r.tunnel_id == cf.tunnel_id && r.tunnel_name == Some(cf.tunnel_name)
                && r.service_running == service_running,
            None => r.tunnel_id is None && r.tunnel_name is None && !r.service_running,
        },
{
    match cloudflare {
        Some(cf) => CloudflareStatusResponse {
            configured: true,
            tunnel_id: cf.tunnel_id.clone(),
            tunnel_name: Some(cf.tunnel_name.clone()),
            service_running,
        },
        None => CloudflareStatusResponse {
            configured: false,
            tunnel_id: None,
            tunnel_name: None,
            service_running: false,
        },
    }
}

/// The result of a sync, for the browser.
pub fn sync_report_response(report: SyncReport) -> (r: SyncReportResponse)
    ensures
        r.added == report.added,
        r.removed == report.removed,
        r.unknown_hosts == report.unknown_hosts,
        r.errors == report.errors,
{
    SyncReportResponse {
        added: report.added,
        removed: report.removed,
        unknown_hosts: report.unknown_hosts,
        errors: report.errors,
    }
}

/// What decoding a text as standard base64 with padding gives, when it is
/// valid.
pub uninterp spec fn base64_decoded(s: Seq<char>) -> Option<Seq<u8>>;

/// The standard base64 text, with padding, of a byte string.
pub uninterp spec fn base64_text(b: Seq<u8>) -> Seq<char>;

/// `base64::engine::general_purpose::STANDARD.decode`: the bytes when the text
/// is valid standard base64, else the decoder's error message.  The result
/// is named by `base64_decoded`; the error text is not stated.
#[verifier::external_body]
fn base64_decode(s: &str) -> (r: Result<Vec<u8>, String>)
    ensures
        match r {
            Ok(v) => base64_decoded(s@) == Some(v@),
            Err(_) => base64_decoded(s@) is None,
        },
{
    match base64::engine::general_purpose::STANDARD.decode(s) {
        Ok(v) => Ok(v),
        Err(e) => Err(e.to_string()),
    }
}

/// `base64::engine::general_purpose::STANDARD.encode`, named by `base64_text`;
/// the empty input gives the empty text, and decoding the text with the same
/// engine gives the bytes back (the crate's own tests check that round trip
/// for this engine).
#[verifier::external_body]
fn base64_encode(b: &[u8]) -> (r: String)
    ensures
        r@ == base64_text(b@),
        b@.len() == 0 ==> r@.len() == 0,
        base64_decoded(r@) == Some(b@),
{
    base64::engine::general_purpose::STANDARD.encode(b)
}

/// The characters an HTTP method token may hold: letters, digits and
/// ``!#$%&'*+-.^_`|~``.
pub open spec fn is_token_char(c: char) -> bool {
    ||| 'a' <= c <= 'z'
    ||| 'A' <= c <= 'Z'
    ||| '0' <= c <= '9'
    ||| c == '!' || c == '#' || c == '$' || c == '%' || c == '&' || c == '\'' || c == '*'
    ||| c == '+' || c == '-' || c == '.' || c == '^' || c == '_' || c == '`' || c == '|' || c == '~'
}

/// `true` when `m` is a method `reqwest` accepts: a non-empty token.
pub open spec fn is_valid_method(m: Seq<char>) -> bool {
    m.len() > 0 && forall|i: int| 0 <= i < m.len() ==> is_token_char(#[trigger] m[i])
}

/// `reqwest::Method::from_bytes` on the text's bytes succeeds: the bytes are
/// not empty and each is a token character (the source checks each byte
/// against its table of token characters; a non-ASCII character encodes to
/// bytes outside it).
#[verifier::external_body]
fn method_accepted(m: &str) -> (r: bool)
    ensures
        r == is_valid_method(m@),
{
    reqwest::Method::from_bytes(m.as_bytes()).is_ok()
}

/// `http://127.0.0.1:`
pub open spec fn local_origin() -> Seq<char> {
    seq!['h', 't', 't', 'p', ':', '/', '/', '1', '2', '7', '.', '0', '.', '0', '.', '1', ':']
}

/// `Invalid base64 body: `
pub open spec fn invalid_body_prefix() -> Seq<char> {
    seq![
        'I', 'n', 'v', 'a', 'l', 'i', 'd', ' ', 'b', 'a', 's', 'e', '6', '4', ' ', 'b', 'o', 'd',
        'y', ':', ' ',
    ]
}

/// `Invalid HTTP method: `
pub open spec fn invalid_method_prefix() -> Seq<char> {
    seq![
        'I', 'n', 'v', 'a', 'l', 'i', 'd', ' ', 'H', 'T', 'T', 'P', ' ', 'm', 'e', 't', 'h', 'o',
        'd', ':', ' ',
    ]
}

/// `true` for the headers the HTTP client manages itself, which a replay
/// does not copy: `host`, `content-length` and `transfer-encoding`, in any
/// case.
pub open spec fn is_managed_header(name: Seq<char>) -> bool {
    is_managed_lowercase(spec_to_lowercase(name))
}

/// `true` when the lower-case header name `l` is `host`, `content-length` or
/// `transfer-encoding`.
pub open spec fn is_managed_lowercase(l: Seq<char>) -> bool {
    ||| l == seq!['h', 'o', 's', 't']
    ||| l == seq!['c', 'o', 'n', 't', 'e', 'n', 't', '-', 'l', 'e', 'n', 'g', 't', 'h']
    ||| l == seq![
        't',
        'r',
        'a',
        'n',
        's',
        'f',
        'e',
        'r',
        '-',
        'e',
        'n',
        'c',
        'o',
        'd',
        'i',
        'n',
        'g',
    ]
}

/// A replay checked and ready to send.
#[derive(Clone, Debug)]
pub struct ReplayPlan {
    /// `http://127.0.0.1:<target port><url>`.
    pub url: String,
    pub method: String,
    /// The headers to send, in order.
    pub headers: Vec<(String, String)>,
    /// The decoded body.
    pub body: Vec<u8>,
}

/// Checks a replay request and prepares it: the tunnel must exist, the body
/// must be valid base64 and the method a valid token, in that order of
/// checks.  The request goes to the tunnel's local port with every header
/// but the ones the HTTP client manages.
pub fn prepare_replay(tunnels: &Vec<TunnelConfig>, req: &ReplayRequestPayload) -> (r: Result<ReplayPlan, String>)
    ensures
        !has_named(tunnels@, req.tunnel_name@) ==> (r matches Err(e) && e@ == not_found_message(
            req.tunnel_name@,
        )),
        has_named(tunnels@, req.tunnel_name@) && base64_decoded(req.body@) is None ==> (r matches Err(
            e,
        ) && invalid_body_prefix().is_prefix_of(e@)),
        has_named(tunnels@, req.tunnel_name@) && base64_decoded(req.body@) is Some
            && !is_valid_method(req.method@) ==> (r matches Err(e) && e@ == invalid_method_prefix()
            + req.method@),
        r matches Ok(p) ==> {
            &&& base64_decoded(req.body@) == Some(p.body@)
            &&& is_valid_method(req.method@)
            &&& p.method@ == req.method@
            &&& exists|k: int|
                first_named(tunnels@, req.tunnel_name@, k) && p.url@ == local_origin()
                    + decimal_text(#[trigger] tunnels@[k].target_port as nat) + req.url@
            &&& header_pairs(p.headers@) == req.headers@.filter(
                |h: (Seq<char>, Seq<char>)| !is_managed_header(h.0),
            )
        },
        r is Ok <==> (has_named(tunnels@, req.tunnel_name@) && base64_decoded(req.body@) is Some
            && is_valid_method(req.method@)),
{
    let k = match find_tunnel(tunnels, req.tunnel_name.as_str()) {
        Some(k) => k,
        None => {
            return Err(not_found_error(req.tunnel_name.as_str()));
        },
    };
    let port = tunnels[k].target_port;
    let body = match base64_decode(req.body.as_str()) {
        Ok(b) => b,
        Err(e) => {
            let mut out: Vec<char> = Vec::new();
            append_chars(
                &mut out,
                &[
                    'I', 'n', 'v', 'a', 'l', 'i', 'd', ' ', 'b', 'a', 's', 'e', '6', '4', ' ', 'b',
                    'o', 'd', 'y', ':', ' ',
                ],
            );
            let ghost head = out@;
            append_str(&mut out, e.as_str());
            assert(out@.take(head.len() as int) =~= head);
            assert(head =~= invalid_body_prefix());
            return Err(string_from_chars(&out));
        },
    };
    if !method_accepted(req.method.as_str()) {
        let mut out: Vec<char> = Vec::new();
        append_chars(
            &mut out,
            &[
                'I', 'n', 'v', 'a', 'l', 'i', 'd', ' ', 'H', 'T', 'T', 'P', ' ', 'm', 'e', 't', 'h',
                'o', 'd', ':', ' ',
            ],
        );
        append_str(&mut out, req.method.as_str());
        assert(out@ =~= invalid_method_prefix() + req.method@);
        return Err(string_from_chars(&out));
    }
    let mut url: Vec<char> = Vec::new();
    append_chars(
        &mut url,
        &['h', 't', 't', 'p', ':', '/', '/', '1', '2', '7', '.', '0', '.', '0', '.', '1', ':'],
    );
    push_decimal(&mut url, port as u64);
    append_str(&mut url, req.url.as_str());
    assert(url@ =~= local_origin() + decimal_text(port as nat) + req.url@);
    let headers = replay_headers(&req.headers);
    Ok(ReplayPlan { url: string_from_chars(&url), method: req.method.clone(), headers, body })
}

/// Whether a header with the lower-case name `lower` is one the HTTP client
/// manages itself (see `is_managed_lowercase`).
pub fn managed_header(lower: &[char]) -> (r: bool)
    ensures
        r == is_managed_lowercase(lower@),
{
    chars_eq(lower, &['h', 'o', 's', 't']) || chars_eq(
        lower,
        &['c', 'o', 'n', 't', 'e', 'n', 't', '-', 'l', 'e', 'n', 'g', 't', 'h'],
    ) || chars_eq(
        lower,
        &['t', 'r', 'a', 'n', 's', 'f', 'e', 'r', '-', 'e', 'n', 'c', 'o', 'd', 'i', 'n', 'g'],
    )
}

/// Copies of the headers, in order, without the ones the HTTP client manages.
fn replay_headers(h: &Headers) -> (r: Vec<(String, String)>)
    ensures
        header_pairs(r@) == h@.filter(|p: (Seq<char>, Seq<char>)| !is_managed_header(p.0)),
{
    let ghost src = h@;
    let ghost pred = |p: (Seq<char>, Seq<char>)| !is_managed_header(p.0);
    let mut out: Vec<(String, String)> = Vec::new();
    let mut j: usize = 0;
    proof {
        reveal(Seq::filter);
        assert(src.take(0) =~= Seq::<(Seq<char>, Seq<char>)>::empty());
    }
    while j < h.entries.len()
        invariant
            src == h@,
            j <= src.len(),
            forall|p: (Seq<char>, Seq<char>)| #[trigger] pred(p) == !is_managed_header(p.0),
            header_pairs(out@) == src.take(j as int).filter(pred),
        decreases src.len() - j,
    {
        let (name, value) = &h.entries[j];
        let ghost e = (name@, value@);
        assert(src[j as int] == e);
        proof {
            assert(src.take(j + 1) =~= src.take(j as int).push(e));
            src.take(j as int).lemma_filter_push(e, pred);
        }
        let lower = to_lowercase(&str_chars(name.as_str()));
        let managed = managed_header(&lower);
        if !managed {
            let ghost before = out@;
            out.push((name.clone(), value.clone()));
            assert(header_pairs(out@) =~= header_pairs(before).push(e));
        }
        j = j + 1;
    }
    assert(src.take(src.len() as int) =~= src);
    out
}

/// The exchange a replay stores: the request as sent, marked as replayed and
/// without raw bytes, and the response that came back, linked to it, both
/// stamped `now`.
pub fn replayed_exchange(
    id: String,
    now: i64,
    req: ReplayRequestPayload,
    body: Vec<u8>,
    status: u16,
    response_headers: Headers,
    response_body: Vec<u8>,
    response_time_us: i64,
) -> (r: RequestExchange)
    ensures
        r.request.id@ == id@,
        r.request.timestamp == now,
        r.request.tunnel_name == req.tunnel_name,
        r.request.method == req.method,
        r.request.url == req.url,
        r.request.headers == req.headers,
        r.request.body == body,
        r.request.raw_request@.len() == 0,
        r.request.replayed,
        r.response matches Some(resp) && resp.request_id@ == id@ && resp.timestamp == now
            && resp.status == status && resp.headers == response_headers && resp.body
            == response_body && resp.raw_response@.len() == 0 && resp.response_time_us == Some(
            response_time_us,
        ),
{
    let request_id = id.clone();
    RequestExchange {
        request: StoredRequest {
            id,
            timestamp: now,
            tunnel_name: req.tunnel_name,
            method: req.method,
            url: req.url,
            headers: req.headers,
            body,
            raw_request: Vec::new(),
            replayed: true,
        },
        response: Some(
            StoredResponse {
                request_id,
                timestamp: now,
                status,
                headers: response_headers,
                body: response_body,
                raw_response: Vec::new(),
                response_time_us: Some(response_time_us),
            },
        ),
    }
}

/// A stored request with its body and raw bytes in base64.
#[derive(Clone, Debug)]
pub struct StoredRequestWithBase64 {
    pub id: String,
    pub timestamp: i64,
    pub tunnel_name: String,
    pub method: String,
    pub url: String,
    pub headers: Headers,
    pub body: String,
    pub raw_request: String,
    pub replayed: bool,
}

/// A stored response with its body and raw bytes in base64.
#[derive(Clone, Debug)]
pub struct StoredResponseWithBase64 {
    pub request_id: String,
    pub timestamp: i64,
    pub status: u16,
    pub headers: Headers,
    pub body: String,
    pub raw_response: String,
    pub response_time_us: Option<i64>,
}

/// An exchange with its binary fields in base64.
#[derive(Clone, Debug)]
pub struct RequestExchangeWithBase64 {
    pub request: StoredRequestWithBase64,
    pub response: Option<StoredResponseWithBase64>,
}

/// A stored WebSocket message with its payload in base64.
#[derive(Clone, Debug)]
pub struct StoredWebSocketMessageWithBase64 {
    pub id: String,
    pub timestamp: i64,
    pub tunnel_name: String,
    pub upgrade_request_id: String,
    pub direction: String,
    pub message_type: WebSocketMessageType,
    pub payload: String,
}

/// The request with its body and raw bytes encoded as base64.  The texts
/// decode back to the stored bytes, so a request replayed from what the
/// browser was shown sends the body that was captured.
pub fn request_to_base64(request: &StoredRequest) -> (r: StoredRequestWithBase64)
    ensures
        base64_decoded(r.body@) == Some(request.body@),
        base64_decoded(r.raw_request@) == Some(request.raw_request@),
        r.id@ == request.id@,
        r.timestamp == request.timestamp,
        r.tunnel_name@ == request.tunnel_name@,
        r.method@ == request.method@,
        r.url@ == request.url@,
        r.headers@ == request.headers@,
        r.body@ == base64_text(request.body@),
        r.raw_request@ == base64_text(request.raw_request@),
        r.replayed == request.replayed,
{
    StoredRequestWithBase64 {
        id: request.id.clone(),
        timestamp: request.timestamp,
        tunnel_name: request.tunnel_name.clone(),
        method: request.method.clone(),
        url: request.url.clone(),
        headers: request.headers.duplicate(),
        body: base64_encode(request.body.as_slice()),
        raw_request: base64_encode(request.raw_request.as_slice()),
        replayed: request.replayed,
    }
}

/// The response with its body and raw bytes encoded as base64; the texts
/// decode back to the stored bytes.
pub fn response_to_base64(response: &StoredResponse) -> (r: StoredResponseWithBase64)
    ensures
        base64_decoded(r.body@) == Some(response.body@),
        base64_decoded(r.raw_response@) == Some(response.raw_response@),
        r.request_id@ == response.request_id@,
        r.timestamp == response.timestamp,
        r.status == response.status,
        r.headers@ == response.headers@,
        r.body@ == base64_text(response.body@),
        r.raw_response@ == base64_text(response.raw_response@),
        r.response_time_us == response.response_time_us,
{
    StoredResponseWithBase64 {
        request_id: response.request_id.clone(),
        timestamp: response.timestamp,
        status: response.status,
        headers: response.headers.duplicate(),
        body: base64_encode(response.body.as_slice()),
        raw_response: base64_encode(response.raw_response.as_slice()),
        response_time_us: response.response_time_us,
    }
}

/// The exchange with its binary fields encoded as base64.
pub fn exchange_to_base64(exchange: &RequestExchange) -> (r: RequestExchangeWithBase64)
    ensures
        r.request.id@ == exchange.request.id@,
        r.request.body@ == base64_text(exchange.request.body@),
        base64_decoded(r.request.body@) == Some(exchange.request.body@),
        r.request.raw_request@ == base64_text(exchange.request.raw_request@),
        r.request.timestamp == exchange.request.timestamp,
        r.request.method@ == exchange.request.method@,
        r.request.url@ == exchange.request.url@,
        r.request.tunnel_name@ == exchange.request.tunnel_name@,
        r.request.headers@ == exchange.request.headers@,
        r.request.replayed == exchange.request.replayed,
        r.response is Some == exchange.response is Some,
        exchange.response matches Some(x) ==> (r.response matches Some(y) && y.request_id@
            == x.request_id@ && y.status == x.status && y.timestamp == x.timestamp && y.body@
            == base64_text(x.body@) && y.raw_response@ == base64_text(x.raw_response@)
            && y.headers@ == x.headers@ && y.response_time_us == x.response_time_us),
{
    RequestExchangeWithBase64 {
        request: request_to_base64(&exchange.request),
        response: match &exchange.response {
            Some(x) => Some(response_to_base64(x)),
            None => None,
        },
    }
}

/// The message with its payload encoded as base64; the text decodes back to
/// the payload.
pub fn websocket_message_to_base64(message: &StoredWebSocketMessage) -> (r: StoredWebSocketMessageWithBase64)
    ensures
        base64_decoded(r.payload@) == Some(message.payload@),
        r.id@ == message.id@,
        r.timestamp == message.timestamp,
        r.tunnel_name@ == message.tunnel_name@,
        r.upgrade_request_id@ == message.upgrade_request_id@,
        r.direction@ == message.direction@,
        r.message_type == message.message_type,
        r.payload@ == base64_text(message.payload@),
{
    StoredWebSocketMessageWithBase64 {
        id: message.id.clone(),
        timestamp: message.timestamp,
        tunnel_name: message.tunnel_name.clone(),
        upgrade_request_id: message.upgrade_request_id.clone(),
        direction: message.direction.clone(),
        message_type: message.message_type,
        payload: base64_encode(message.payload.as_slice()),
    }
}

/// How captured bytes are shown as text: the text itself when they are valid
/// UTF-8, else `<binary: N bytes>`.
pub open spec fn spec_bytes_display(bytes: Seq<u8>) -> Seq<char> {
    if valid_utf8(bytes) {
        decode_utf8(bytes)
    } else {
        "<binary: "@ + decimal_text(bytes.len()) + " bytes>"@
    }
}

/// Captured bytes as text (see `spec_bytes_display`).
pub fn bytes_to_display(bytes: &[u8]) -> (r: String)
    ensures
        r@ == spec_bytes_display(bytes@),
{
    match utf8_strict(bytes) {
        Some(cs) => string_from_chars(&cs),
        None => {
            let mut out: Vec<char> = Vec::new();
            append_str(&mut out, "<binary: ");
            push_decimal(&mut out, bytes.len() as u64);
            append_str(&mut out, " bytes>");
            assert(out@ =~= "<binary: "@ + decimal_text(bytes@.len()) + " bytes>"@);
            string_from_chars(&out)
        },
    }
}

} // verus!
