//! In-memory stores for captured HTTP exchanges and WebSocket frames.
use vstd::prelude::*;

use crate::text::{chars_contain, chars_eq, contains_seq, str_chars};

verus! {

/// Header names and values in the order they were first seen; a name occurs
/// at most once, as in a map.
#[derive(Clone, Debug)]
pub struct Headers {
    pub entries: Vec<(String, String)>,
}

/// The name/value pairs of a header list as character sequences.
pub open spec fn header_pairs(e: Seq<(String, String)>) -> Seq<(Seq<char>, Seq<char>)> {
    e.map_values(|p: (String, String)| (p.0@, p.1@))
}

/// Map insertion on a pair list: the value of an existing name is replaced in
/// place, a new name is appended.
pub open spec fn header_insert(
    h: Seq<(Seq<char>, Seq<char>)>,
    k: Seq<char>,
    v: Seq<char>,
) -> Seq<(Seq<char>, Seq<char>)> {
    if exists|i: int| 0 <= i < h.len() && h[i].0 == k {
        let i = choose|i: int| 0 <= i < h.len() && h[i].0 == k && forall|j: int| 0 <= j < i ==> h[j].0 != k;
        h.update(i, (k, v))
    } else {
        h.push((k, v))
    }
}

/// The value stored under `k`, if any.
pub open spec fn header_lookup(h: Seq<(Seq<char>, Seq<char>)>, k: Seq<char>) -> Option<Seq<char>> {
    if exists|i: int| 0 <= i < h.len() && h[i].0 == k {
        let i = choose|i: int| 0 <= i < h.len() && h[i].0 == k && forall|j: int| 0 <= j < i ==> h[j].0 != k;
        Some(h[i].1)
    } else {
        None
    }
}

impl View for Headers {
    type V = Seq<(Seq<char>, Seq<char>)>;

    open spec fn view(&self) -> Seq<(Seq<char>, Seq<char>)> {
        header_pairs(self.entries@)
    }
}

proof fn lemma_first_key(h: Seq<(Seq<char>, Seq<char>)>, k: Seq<char>, i: int, v: Seq<char>)
    requires
        0 <= i < h.len(),
        h[i].0 == k,
        forall|j: int| 0 <= j < i ==> h[j].0 != k,
    ensures
        header_lookup(h, k) == Some(h[i].1),
        header_insert(h, k, v) == h.update(i, (k, v)),
{
    let c = choose|c: int| 0 <= c < h.len() && h[c].0 == k && forall|j: int| 0 <= j < c ==> h[j].0 != k;
    assert(0 <= c < h.len() && h[c].0 == k && forall|j: int| 0 <= j < c ==> h[j].0 != k);
    if c < i {
        assert(h[c].0 != k);
    }
    if i < c {
        assert(h[i].0 != k);
    }
}

impl Headers {
    /// An empty header list.
    pub fn new() -> (r: Headers)
        ensures
            r@ == Seq::<(Seq<char>, Seq<char>)>::empty(),
    {
        let r = Headers { entries: Vec::new() };
        assert(r@ =~= Seq::<(Seq<char>, Seq<char>)>::empty());
        r
    }

    /// Position of the first entry named `key`.
    fn position(&self, key: &String) -> (r: Option<usize>)
        ensures
            match r {
                Some(i) => i < self@.len() && self@[i as int].0 == key@ && forall|j: int|
                    0 <= j < i ==> self@[j].0 != key@,
                None => forall|j: int| 0 <= j < self@.len() ==> self@[j].0 != key@,
            },
    {
        let mut i: usize = 0;
        while i < self.entries.len()
            invariant
                i <= self.entries@.len(),
                forall|j: int| 0 <= j < i ==> self.entries@[j].0@ != key@,
            decreases self.entries@.len() - i,
        {
            if self.entries[i].0 == *key {
                return Some(i);
            }
            i = i + 1;
        }
        None
    }

    /// Stores `value` under `key`, replacing an earlier value of the same name.
    pub fn insert(&mut self, key: String, value: String)
        ensures
            final(self)@ == header_insert(old(self)@, key@, value@),
    {
        let ghost h = self@;
        match self.position(&key) {
            Some(i) => {
                proof {
                    lemma_first_key(h, key@, i as int, value@);
                }
                self.entries.set(i, (key, value));
                assert(self@ =~= header_insert(h, key@, value@));
            },
            None => {
                self.entries.push((key, value));
                assert(self@ =~= header_insert(h, key@, value@));
            },
        }
    }

    /// The value stored under `key`, if any.
    pub fn get(&self, key: &str) -> (r: Option<&String>)
        ensures
            match r {
                Some(v) => header_lookup(self@, key@) == Some(v@),
                None => header_lookup(self@, key@) is None,
            },
    {
        let k = str_chars(key);
        let mut i: usize = 0;
        while i < self.entries.len()
            invariant
                i <= self.entries@.len(),
                k@ == key@,
                forall|j: int| 0 <= j < i ==> self.entries@[j].0@ != key@,
            decreases self.entries@.len() - i,
        {
            let name = str_chars(self.entries[i].0.as_str());
            if chars_eq(&name, &k) {
                proof {
                    lemma_first_key(self@, key@, i as int, key@);
                }
                return Some(&self.entries[i].1);
            }
            i = i + 1;
        }
        proof {
            assert forall|j: int| 0 <= j < self@.len() implies !(self@[j].0 == key@) by {
                assert(self@[j].0 == self.entries@[j].0@);
            }
        }
        None
    }

    /// Number of distinct header names.
    pub fn len(&self) -> (r: usize)
        ensures
            r == self@.len(),
    {
        self.entries.len()
    }
}


impl Headers {
    /// A copy of the header list.
    pub fn duplicate(&self) -> (r: Headers)
        ensures
            r@ == self@,
    {
        let mut out: Vec<(String, String)> = Vec::new();
        let mut i: usize = 0;
        while i < self.entries.len()
            invariant
                i <= self.entries@.len(),
                header_pairs(out@) =~= header_pairs(self.entries@.take(i as int)),
            decreases self.entries@.len() - i,
        {
            let k = self.entries[i].0.clone();
            let v = self.entries[i].1.clone();
            let ghost before = out@;
            let ghost e = self.entries@[i as int];
            out.push((k, v));
            assert(self.entries@.take(i + 1) =~= self.entries@.take(i as int).push(e));
            assert(header_pairs(out@) =~= header_pairs(before).push((e.0@, e.1@)));
            assert(header_pairs(self.entries@.take(i as int).push(e)) =~= header_pairs(
                self.entries@.take(i as int),
            ).push((e.0@, e.1@)));
            i = i + 1;
        }
        assert(self.entries@.take(self.entries@.len() as int) =~= self.entries@);
        Headers { entries: out }
    }
}

/// `str::to_uppercase`; the result is named by `spec_to_uppercase`.
#[verifier::external_body]
pub(crate) fn str_to_uppercase(s: &str) -> (r: String)
    ensures
        r@ == spec_to_uppercase(s@),
{
    s.to_uppercase()
}

/// What `str::to_uppercase` returns for a text.
pub uninterp spec fn spec_to_uppercase(s: Seq<char>) -> Seq<char>;

/// A captured HTTP request.
#[derive(Clone, Debug)]
pub struct StoredRequest {
    /// Unique identifier.
    pub id: String,
    /// When the request was received, in nanoseconds since the Unix epoch.
    pub timestamp: i64,
    /// Name of the tunnel the request arrived on.
    pub tunnel_name: String,
    /// HTTP method (e.g. `"GET"`).
    pub method: String,
    /// Request path and query string.
    pub url: String,
    pub headers: Headers,
    /// Body bytes, possibly cut to the configured maximum.
    pub body: Vec<u8>,
    /// The raw request bytes as received, possibly cut.
    pub raw_request: Vec<u8>,
    /// `true` for a request that was sent again from the web interface.
    pub replayed: bool,
}

/// A captured HTTP response, linked to its request by id.
#[derive(Clone, Debug)]
pub struct StoredResponse {
    /// Id of the request this response answers.
    pub request_id: String,
    /// When the response was received, in nanoseconds since the Unix epoch.
    pub timestamp: i64,
    pub status: u16,
    pub headers: Headers,
    pub body: Vec<u8>,
    pub raw_response: Vec<u8>,
    /// Time from the request to this response, in microseconds; `None` when
    /// the request could not be matched.
    pub response_time_us: Option<i64>,
}

/// A request and, once captured, its response.
#[derive(Clone, Debug)]
pub struct RequestExchange {
    pub request: StoredRequest,
    pub response: Option<StoredResponse>,
}

/// How a WebSocket payload is encoded.
#[derive(Debug, Clone, Copy, PartialEq, Eq, Structural)]
pub enum WebSocketMessageType {
    Text,
    Binary,
}

/// A captured WebSocket frame.
#[derive(Clone, Debug)]
pub struct StoredWebSocketMessage {
    pub id: String,
    /// When the frame was captured, in nanoseconds since the Unix epoch.
    pub timestamp: i64,
    pub tunnel_name: String,
    /// Id of the HTTP upgrade request that opened the connection.
    pub upgrade_request_id: String,
    /// `"→"` for client to server, `"←"` for server to client.
    pub direction: String,
    pub message_type: WebSocketMessageType,
    /// Unmasked payload bytes.
    pub payload: Vec<u8>,
}

/// The contents of a stored request.
pub struct RequestView {
    pub id: Seq<char>,
    pub timestamp: i64,
    pub tunnel_name: Seq<char>,
    pub method: Seq<char>,
    pub url: Seq<char>,
    pub headers: Seq<(Seq<char>, Seq<char>)>,
    pub body: Seq<u8>,
    pub raw_request: Seq<u8>,
    pub replayed: bool,
}

/// The contents of a stored response.
pub struct ResponseView {
    pub request_id: Seq<char>,
    pub timestamp: i64,
    pub status: u16,
    pub headers: Seq<(Seq<char>, Seq<char>)>,
    pub body: Seq<u8>,
    pub raw_response: Seq<u8>,
    pub response_time_us: Option<i64>,
}

/// The contents of an exchange.
pub struct ExchangeView {
    pub request: RequestView,
    pub response: Option<ResponseView>,
}

/// The contents of a stored WebSocket message.
pub struct MessageView {
    pub id: Seq<char>,
    pub timestamp: i64,
    pub tunnel_name: Seq<char>,
    pub upgrade_request_id: Seq<char>,
    pub direction: Seq<char>,
    pub message_type: WebSocketMessageType,
    pub payload: Seq<u8>,
}

impl View for StoredRequest {
    type V = RequestView;

    open spec fn view(&self) -> RequestView {
        RequestView {
            id: self.id@,
            timestamp: self.timestamp,
            tunnel_name: self.tunnel_name@,
            method: self.method@,
            url: self.url@,
            headers: self.headers@,
            body: self.body@,
            raw_request: self.raw_request@,
            replayed: self.replayed,
        }
    }
}

impl View for StoredResponse {
    type V = ResponseView;

    open spec fn view(&self) -> ResponseView {
        ResponseView {
            request_id: self.request_id@,
            timestamp: self.timestamp,
            status: self.status,
            headers: self.headers@,
            body: self.body@,
            raw_response: self.raw_response@,
            response_time_us: self.response_time_us,
        }
    }
}

/// The contents of an optional response.
pub open spec fn response_view(r: Option<StoredResponse>) -> Option<ResponseView> {
    match r {
        Some(x) => Some(x@),
        None => None,
    }
}

impl View for RequestExchange {
    type V = ExchangeView;

    open spec fn view(&self) -> ExchangeView {
        ExchangeView { request: self.request@, response: response_view(self.response) }
    }
}

impl View for StoredWebSocketMessage {
    type V = MessageView;

    open spec fn view(&self) -> MessageView {
        MessageView {
            id: self.id@,
            timestamp: self.timestamp,
            tunnel_name: self.tunnel_name@,
            upgrade_request_id: self.upgrade_request_id@,
            direction: self.direction@,
            message_type: self.message_type,
            payload: self.payload@,
        }
    }
}

impl StoredRequest {
    /// A copy of the request.
    pub fn duplicate(&self) -> (r: StoredRequest)
        ensures
            r@ == self@,
    {
        StoredRequest {
            id: self.id.clone(),
            timestamp: self.timestamp,
            tunnel_name: self.tunnel_name.clone(),
            method: self.method.clone(),
            url: self.url.clone(),
            headers: self.headers.duplicate(),
            body: self.body.clone(),
            raw_request: self.raw_request.clone(),
            replayed: self.replayed,
        }
    }
}

impl StoredResponse {
    /// A copy of the response.
    pub fn duplicate(&self) -> (r: StoredResponse)
        ensures
            r@ == self@,
    {
        StoredResponse {
            request_id: self.request_id.clone(),
            timestamp: self.timestamp,
            status: self.status,
            headers: self.headers.duplicate(),
            body: self.body.clone(),
            raw_response: self.raw_response.clone(),
            response_time_us: self.response_time_us,
        }
    }
}

impl RequestExchange {
    /// A copy of the exchange.
    pub fn duplicate(&self) -> (r: RequestExchange)
        ensures
            r@ == self@,
    {
        let response = match &self.response {
            Some(x) => Some(x.duplicate()),
            None => None,
        };
        RequestExchange { request: self.request.duplicate(), response }
    }
}

impl StoredWebSocketMessage {
    /// A copy of the message.
    pub fn duplicate(&self) -> (r: StoredWebSocketMessage)
        ensures
            r@ == self@,
    {
        StoredWebSocketMessage {
            id: self.id.clone(),
            timestamp: self.timestamp,
            tunnel_name: self.tunnel_name.clone(),
            upgrade_request_id: self.upgrade_request_id.clone(),
            direction: self.direction.clone(),
            message_type: self.message_type,
            payload: self.payload.clone(),
        }
    }
}

/// Sort order for query results.
#[derive(Debug, Clone, Copy, PartialEq, Eq, Structural)]
pub enum SortDirection {
    Asc,
    Desc,
}

/// Filter and sort criteria for stored exchanges.
#[derive(Clone, Debug)]
pub struct QueryFilter {
    pub tunnel_name: Option<String>,
    /// Matched without regard to case (`"get"` matches `"GET"`).
    pub method: Option<String>,
    /// Matches only exchanges whose response has this status.
    pub status: Option<u16>,
    /// Substring of the request URL.
    pub url_contains: Option<String>,
    /// Inclusive lower bound on the request timestamp.
    pub since: Option<i64>,
    /// Inclusive upper bound on the request timestamp.
    pub until: Option<i64>,
    /// Result order; newest first when absent.
    pub sort_direction: Option<SortDirection>,
}

impl QueryFilter {
    /// A filter that matches everything, newest first.
    pub fn new() -> (r: QueryFilter)
        ensures
            r.tunnel_name is None,
            r.method is None,
            r.status is None,
            r.url_contains is None,
            r.since is None,
            r.until is None,
            r.sort_direction is None,
    {
        QueryFilter {
            tunnel_name: None,
            method: None,
            status: None,
            url_contains: None,
            since: None,
            until: None,
            sort_direction: None,
        }
    }

    /// `true` when the exchange meets every criterion that is set.
    pub open spec fn spec_matches(&self, e: ExchangeView) -> bool {
        &&& (self.tunnel_name matches Some(t) ==> e.request.tunnel_name == t@)
        &&& (self.method matches Some(m) ==> spec_to_uppercase(e.request.method)
            == spec_to_uppercase(m@))
        &&& (self.status matches Some(s) ==> (e.response matches Some(r) && r.status == s))
        &&& (self.url_contains matches Some(u) ==> contains_seq(e.request.url, u@))
        &&& (self.since matches Some(t) ==> e.request.timestamp >= t)
        &&& (self.until matches Some(t) ==> e.request.timestamp <= t)
    }

    /// `true` when the newest exchanges come first.
    pub open spec fn spec_descending(&self) -> bool {
        !(self.sort_direction == Some(SortDirection::Asc))
    }

    /// Returns `true` when `exchange` satisfies all criteria in this filter.
    pub fn matches(&self, exchange: &RequestExchange) -> (r: bool)
        ensures
            r == self.spec_matches(exchange@),
    {
        let request = &exchange.request;
        if let Some(tunnel_name) = &self.tunnel_name {
            if request.tunnel_name != *tunnel_name {
                return false;
            }
        }
        if let Some(method) = &self.method {
            let a = str_to_uppercase(request.method.as_str());
            let b = str_to_uppercase(method.as_str());
            if a != b {
                return false;
            }
        }
        if let Some(status) = self.status {
            match &exchange.response {
                Some(response) => {
                    if response.status != status {
                        return false;
                    }
                },
                None => {
                    return false;
                },
            }
        }
        if let Some(url_contains) = &self.url_contains {
            let url = str_chars(request.url.as_str());
            let pat = str_chars(url_contains.as_str());
            if !chars_contain(&url, &pat) {
                return false;
            }
        }
        if let Some(since) = self.since {
            if request.timestamp < since {
                return false;
            }
        }
        if let Some(until) = self.until {
            if request.timestamp > until {
                return false;
            }
        }
        true
    }
}

/// Filter criteria for stored WebSocket messages.
#[derive(Clone, Debug)]
pub struct WebSocketMessageFilter {
    pub tunnel_name: Option<String>,
    pub upgrade_request_id: Option<String>,
    /// Direction string (`"→"` or `"←"`).
    pub direction: Option<String>,
    pub message_type: Option<WebSocketMessageType>,
    /// Inclusive lower bound on the timestamp.
    pub since: Option<i64>,
    /// Inclusive upper bound on the timestamp.
    pub until: Option<i64>,
}

impl WebSocketMessageFilter {
    /// A filter that matches every message.
    pub fn new() -> (r: WebSocketMessageFilter)
        ensures
            r.tunnel_name is None,
            r.upgrade_request_id is None,
            r.direction is None,
            r.message_type is None,
            r.since is None,
            r.until is None,
    {
        WebSocketMessageFilter {
            tunnel_name: None,
            upgrade_request_id: None,
            direction: None,
            message_type: None,
            since: None,
            until: None,
        }
    }

    /// `true` when the message meets every criterion that is set.
    pub open spec fn spec_matches(&self, m: MessageView) -> bool {
        &&& (self.tunnel_name matches Some(t) ==> m.tunnel_name == t@)
        &&& (self.upgrade_request_id matches Some(u) ==> m.upgrade_request_id == u@)
        &&& (self.direction matches Some(d) ==> m.direction == d@)
        &&& (self.message_type matches Some(t) ==> m.message_type == t)
        &&& (self.since matches Some(t) ==> m.timestamp >= t)
        &&& (self.until matches Some(t) ==> m.timestamp <= t)
    }

    /// Returns `true` when `message` satisfies all criteria in this filter.
    pub fn matches(&self, message: &StoredWebSocketMessage) -> (r: bool)
        ensures
            r == self.spec_matches(message@),
    {
        if let Some(tunnel_name) = &self.tunnel_name {
            if message.tunnel_name != *tunnel_name {
                return false;
            }
        }
        if let Some(upgrade_request_id) = &self.upgrade_request_id {
            if message.upgrade_request_id != *upgrade_request_id {
                return false;
            }
        }
        if let Some(direction) = &self.direction {
            if message.direction != *direction {
                return false;
            }
        }
        if let Some(t) = self.message_type {
            if message.message_type != t {
                return false;
            }
        }
        if let Some(since) = self.since {
            if message.timestamp < since {
                return false;
            }
        }
        if let Some(until) = self.until {
            if message.timestamp > until {
                return false;
            }
        }
        true
    }
}


/// The contents of a list of exchanges.
pub open spec fn exchange_views(v: Seq<RequestExchange>) -> Seq<ExchangeView> {
    v.map_values(|e: RequestExchange| e@)
}

/// The exchanges of `s` that `f` matches, in order.
pub open spec fn matching(f: QueryFilter, s: Seq<ExchangeView>) -> Seq<ExchangeView>
    decreases s.len(),
{
    if s.len() == 0 {
        Seq::empty()
    } else {
        let r = matching(f, s.drop_last());
        if f.spec_matches(s.last()) {
            r.push(s.last())
        } else {
            r
        }
    }
}

/// `true` when the request timestamps of `s` never increase (`desc`) or never
/// decrease (`!desc`).
pub open spec fn sorted_by_time(s: Seq<ExchangeView>, desc: bool) -> bool {
    forall|i: int, j: int|
        0 <= i < j < s.len() ==> if desc {
            s[i].request.timestamp >= s[j].request.timestamp
        } else {
            s[i].request.timestamp <= s[j].request.timestamp
        }
}

/// `true` when no two exchanges of `s` share a request id.
pub open spec fn unique_ids(s: Seq<ExchangeView>) -> bool {
    forall|i: int, j: int| 0 <= i < j < s.len() ==> s[i].request.id != s[j].request.id
}

/// `true` when `i` is the first exchange of `s` with request id `id`.
pub open spec fn first_with_id(s: Seq<ExchangeView>, id: Seq<char>, i: int) -> bool {
    0 <= i < s.len() && s[i].request.id == id && forall|j: int| 0 <= j < i ==> s[j].request.id != id
}

/// Index of the exchange whose request has id `id`.
pub open spec fn index_of_id(s: Seq<ExchangeView>, id: Seq<char>) -> Option<int> {
    if exists|i: int| first_with_id(s, id, i) {
        Some(choose|i: int| first_with_id(s, id, i))
    } else {
        None
    }
}

/// `true` when `i` is the oldest exchange of `s` received before `now`: no
/// exchange is older, and none before it is as old.
pub open spec fn is_oldest(s: Seq<ExchangeView>, now: i64, i: int) -> bool {
    &&& 0 <= i < s.len()
    &&& s[i].request.timestamp < now
    &&& forall|j: int| 0 <= j < s.len() ==> s[i].request.timestamp <= s[j].request.timestamp
    &&& forall|j: int| 0 <= j < i ==> s[j].request.timestamp != s[i].request.timestamp
}

/// `s` without its oldest exchange received before `now`, if there is one.
pub open spec fn evict_oldest(s: Seq<ExchangeView>, now: i64) -> Seq<ExchangeView> {
    if exists|i: int| is_oldest(s, now, i) {
        s.remove(choose|i: int| is_oldest(s, now, i))
    } else {
        s
    }
}

/// `s` with `e` stored under its request id: an exchange of that id is
/// replaced in place, else `e` is appended.
pub open spec fn upsert(s: Seq<ExchangeView>, e: ExchangeView) -> Seq<ExchangeView> {
    match index_of_id(s, e.request.id) {
        Some(i) => s.update(i, e),
        None => s.push(e),
    }
}

/// What storing `e` does to the exchanges `s` of a store holding at most
/// `max`: when full, the oldest exchange received before `now` goes first.
pub open spec fn store_exchange_spec(s: Seq<ExchangeView>, max: nat, now: i64, e: ExchangeView) -> Seq<ExchangeView> {
    let kept = if s.len() >= max {
        evict_oldest(s, now)
    } else {
        s
    };
    upsert(kept, e)
}

/// `true` when `i` is the first pending entry of connection `conn`.
pub open spec fn first_pending(p: Seq<(Seq<char>, Seq<char>)>, conn: Seq<char>, i: int) -> bool {
    0 <= i < p.len() && p[i].0 == conn && forall|j: int| 0 <= j < i ==> p[j].0 != conn
}

/// Index of the oldest pending request of connection `conn`.
pub open spec fn next_pending(p: Seq<(Seq<char>, Seq<char>)>, conn: Seq<char>) -> Option<int> {
    if exists|i: int| first_pending(p, conn, i) {
        Some(choose|i: int| first_pending(p, conn, i))
    } else {
        None
    }
}

/// The ids of the requests of connection `conn` still waiting for a response,
/// oldest first.
pub open spec fn queue_of(p: Seq<(Seq<char>, Seq<char>)>, conn: Seq<char>) -> Seq<Seq<char>>
    decreases p.len(),
{
    if p.len() == 0 {
        Seq::empty()
    } else {
        let r = queue_of(p.drop_last(), conn);
        if p.last().0 == conn {
            r.push(p.last().1)
        } else {
            r
        }
    }
}

/// In-memory store of captured request/response exchanges, with the ids of
/// requests still waiting for their response, per connection.
#[derive(Clone, Debug)]
pub struct RequestStorage {
    exchanges: Vec<RequestExchange>,
    pending: Vec<(String, String)>,
    max_requests: usize,
}

impl RequestStorage {
    /// The stored exchanges, oldest stored first.
    pub closed spec fn entries(&self) -> Seq<ExchangeView> {
        exchange_views(self.exchanges@)
    }

    /// The pending requests as (connection id, request id), in the order
    /// they were stored.
    pub closed spec fn pending_view(&self) -> Seq<(Seq<char>, Seq<char>)> {
        self.pending@.map_values(|p: (String, String)| (p.0@, p.1@))
    }

    /// The most exchanges the store keeps.
    pub closed spec fn capacity(&self) -> nat {
        self.max_requests as nat
    }

    /// No two stored exchanges share a request id.
    pub closed spec fn wf(&self) -> bool {
        unique_ids(self.entries())
    }

    /// Creates a new storage that retains at most `max_requests` exchanges.
    pub fn new(max_requests: usize) -> (r: RequestStorage)
        ensures
            r.wf(),
            r.entries() == Seq::<ExchangeView>::empty(),
            r.pending_view() == Seq::<(Seq<char>, Seq<char>)>::empty(),
            r.capacity() == max_requests,
    {
        let r = RequestStorage { exchanges: Vec::new(), pending: Vec::new(), max_requests };
        assert(r.entries() =~= Seq::<ExchangeView>::empty());
        assert(r.pending_view() =~= Seq::<(Seq<char>, Seq<char>)>::empty());
        r
    }

    /// Position of the exchange whose request has id `id`.
    fn position_of(&self, id: &String) -> (r: Option<usize>)
        requires
            self.wf(),
        ensures
            match r {
                Some(i) => index_of_id(self.entries(), id@) == Some(i as int) && i < self.entries().len(),
                None => index_of_id(self.entries(), id@) is None,
            },
    {
        let ghost s = self.entries();
        let mut i: usize = 0;
        while i < self.exchanges.len()
            invariant
                s == exchange_views(self.exchanges@),
                i <= s.len(),
                forall|j: int| 0 <= j < i ==> s[j].request.id != id@,
            decreases s.len() - i,
        {
            if self.exchanges[i].request.id == *id {
                proof {
                    assert(first_with_id(s, id@, i as int));
                    let c = choose|k: int| first_with_id(s, id@, k);
                    assert(first_with_id(s, id@, c));
                    if c < i {
                        assert(s[c].request.id != id@);
                    }
                    if (i as int) < c {
                        assert(s[i as int].request.id != id@);
                    }
                }
                return Some(i);
            }
            i = i + 1;
        }
        proof {
            assert forall|k: int| !first_with_id(s, id@, k) by {
                if first_with_id(s, id@, k) {
                    assert(s[k].request.id != id@);
                }
            }
        }
        None
    }

    /// Removes the oldest exchange received before `now`, if any.
    fn evict_oldest_before(&mut self, now: i64)
        requires
            old(self).wf(),
        ensures
            final(self).wf(),
            final(self).entries() == evict_oldest(old(self).entries(), now),
            final(self).pending == old(self).pending,
            final(self).max_requests == old(self).max_requests,
    {
        let ghost s = self.entries();
        let mut best: Option<usize> = None;
        let mut best_ts: i64 = now;
        let mut j: usize = 0;
        while j < self.exchanges.len()
            invariant
                s == exchange_views(self.exchanges@),
                j <= s.len(),
                match best {
                    Some(b) => {
                        &&& b < j
                        &&& s[b as int].request.timestamp == best_ts
                        &&& best_ts < now
                        &&& forall|k: int| 0 <= k < j ==> best_ts <= s[k].request.timestamp
                        &&& forall|k: int| 0 <= k < b ==> s[k].request.timestamp != best_ts
                    },
                    None => best_ts == now && forall|k: int| 0 <= k < j ==> s[k].request.timestamp >= now,
                },
            decreases s.len() - j,
        {
            let ts = self.exchanges[j].request.timestamp;
            if ts < best_ts {
                best = Some(j);
                best_ts = ts;
            }
            j = j + 1;
        }
        match best {
            Some(b) => {
                proof {
                    assert(is_oldest(s, now, b as int));
                    let c = choose|i: int| is_oldest(s, now, i);
                    assert(is_oldest(s, now, c));
                    if c < b {
                        assert(s[c].request.timestamp != s[b as int].request.timestamp);
                    }
                    if (b as int) < c {
                        assert(s[b as int].request.timestamp != s[c].request.timestamp);
                    }
                }
                let ghost before = self.exchanges@;
                self.exchanges.remove(b);
                assert(exchange_views(self.exchanges@) =~= s.remove(b as int));
                assert(unique_ids(self.entries())) by {
                    assert forall|x: int, y: int|
                        0 <= x < y < self.entries().len() implies self.entries()[x].request.id
                        != self.entries()[y].request.id by {
                        let xx = if x < b {
                            x
                        } else {
                            x + 1
                        };
                        let yy = if y < b {
                            y
                        } else {
                            y + 1
                        };
                        assert(self.entries()[x] == s[xx]);
                        assert(self.entries()[y] == s[yy]);
                    }
                }
            },
            None => {
                proof {
                    assert forall|i: int| !is_oldest(s, now, i) by {
                        if 0 <= i < s.len() {
                            assert(s[i].request.timestamp >= now);
                        }
                    }
                }
            },
        }
    }

    /// Stores `exchange` under its request id, with `now` as the time,
    /// evicting the oldest exchange when the store is full.
    pub fn store_exchange_at(&mut self, exchange: RequestExchange, now: i64)
        requires
            old(self).wf(),
        ensures
            final(self).wf(),
            final(self).entries() == store_exchange_spec(
                old(self).entries(),
                old(self).capacity(),
                now,
                exchange@,
            ),
            final(self).pending_view() == old(self).pending_view(),
            final(self).capacity() == old(self).capacity(),
    {
        if self.exchanges.len() >= self.max_requests {
            self.evict_oldest_before(now);
        }
        let ghost kept = self.entries();
        let id = exchange.request.id.clone();
        match self.position_of(&id) {
            Some(i) => {
                let ghost e = exchange@;
                self.exchanges.set(i, exchange);
                assert(self.entries() =~= kept.update(i as int, e));
                assert(unique_ids(self.entries())) by {
                    assert forall|x: int, y: int|
                        0 <= x < y < self.entries().len() implies self.entries()[x].request.id
                        != self.entries()[y].request.id by {
                        if x != i && y != i {
                            assert(self.entries()[x] == kept[x]);
                            assert(self.entries()[y] == kept[y]);
                        } else if x == i {
                            assert(self.entries()[y] == kept[y]);
                        } else {
                            assert(self.entries()[x] == kept[x]);
                        }
                    }
                }
            },
            None => {
                let ghost e = exchange@;
                self.exchanges.push(exchange);
                assert(self.entries() =~= kept.push(e));
                assert(unique_ids(self.entries())) by {
                    assert forall|x: int, y: int|
                        0 <= x < y < self.entries().len() implies self.entries()[x].request.id
                        != self.entries()[y].request.id by {
                        assert(self.entries()[x] == kept[x]);
                        if y < kept.len() {
                            assert(self.entries()[y] == kept[y]);
                        } else {
                            assert(!first_with_id(kept, e.request.id, x));
                        }
                    }
                }
            },
        }
    }
}


/// `chrono::Utc::now().timestamp_nanos_opt()`: the time of the call in
/// nanoseconds since the Unix epoch, `None` when it does not fit in an `i64`
/// (before 1677 or after 2262).  Nothing is stated of the result: it is the
/// time of the call.
#[verifier::external_body]
pub(crate) fn now_nanos() -> (r: Option<i64>) {
    chrono::Utc::now().timestamp_nanos_opt()
}

/// The current time in nanoseconds since the Unix epoch; a clock beyond the
/// range of an `i64` reads as its largest value.
pub(crate) fn current_time() -> (r: i64) {
    match now_nanos() {
        Some(t) => t,
        None => i64::MAX,
    }
}

impl RequestStorage {
    /// Stores `request` as a new exchange without a response, with `now` as
    /// the time; when the store is full the oldest exchange received before
    /// `now` is evicted first.
    pub fn store_request_at(&mut self, request: StoredRequest, now: i64)
        requires
            old(self).wf(),
        ensures
            final(self).wf(),
            final(self).entries() == store_exchange_spec(
                old(self).entries(),
                old(self).capacity(),
                now,
                ExchangeView { request: request@, response: None },
            ),
            final(self).pending_view() == old(self).pending_view(),
            final(self).capacity() == old(self).capacity(),
    {
        let exchange = RequestExchange { request, response: None };
        self.store_exchange_at(exchange, now);
    }

    /// Stores `request` as a new exchange, evicting the oldest entry when at
    /// capacity.  Eviction considers the exchanges received before the
    /// current time.
    pub fn store_request(&mut self, request: StoredRequest)
        requires
            old(self).wf(),
        ensures
            final(self).wf(),
            exists|now: i64|
                final(self).entries() == store_exchange_spec(
                    old(self).entries(),
                    old(self).capacity(),
                    now,
                    ExchangeView { request: request@, response: None },
                ),
            final(self).pending_view() == old(self).pending_view(),
            final(self).capacity() == old(self).capacity(),
    {
        let now = current_time();
        self.store_request_at(request, now);
    }

    /// Stores a complete exchange (a replayed request with its response),
    /// evicting the oldest entry when at capacity.
    pub fn store_exchange(&mut self, exchange: RequestExchange)
        requires
            old(self).wf(),
        ensures
            final(self).wf(),
            exists|now: i64|
                final(self).entries() == store_exchange_spec(
                    old(self).entries(),
                    old(self).capacity(),
                    now,
                    exchange@,
                ),
            final(self).pending_view() == old(self).pending_view(),
            final(self).capacity() == old(self).capacity(),
    {
        let now = current_time();
        self.store_exchange_at(exchange, now);
    }

    /// Stores `request` and queues its id for `connection_id`, so that the
    /// next response on that connection is matched to it (first in, first
    /// out).
    pub fn store_request_with_connection_at(&mut self, request: StoredRequest, connection_id: &str, now: i64)
        requires
            old(self).wf(),
        ensures
            final(self).wf(),
            final(self).entries() == store_exchange_spec(
                old(self).entries(),
                old(self).capacity(),
                now,
                ExchangeView { request: request@, response: None },
            ),
            final(self).pending_view() == old(self).pending_view().push((connection_id@, request.id@)),
            final(self).capacity() == old(self).capacity(),
    {
        let id = request.id.clone();
        self.store_request_at(request, now);
        let ghost before = self.pending@;
        self.pending.push((connection_id.to_string(), id));
        assert(self.pending_view() =~= before.map_values(|p: (String, String)| (p.0@, p.1@)).push(
            (connection_id@, request.id@),
        ));
    }

    /// Stores `request` and enqueues its id in `connection_id`'s pending queue
    /// so that the next response on that connection can be matched to it.
    pub fn store_request_with_connection(&mut self, request: StoredRequest, connection_id: &str)
        requires
            old(self).wf(),
        ensures
            final(self).wf(),
            exists|now: i64|
                final(self).entries() == store_exchange_spec(
                    old(self).entries(),
                    old(self).capacity(),
                    now,
                    ExchangeView { request: request@, response: None },
                ),
            final(self).pending_view() == old(self).pending_view().push((connection_id@, request.id@)),
            final(self).capacity() == old(self).capacity(),
    {
        let now = current_time();
        self.store_request_with_connection_at(request, connection_id, now);
    }

    /// Position of the oldest pending entry of connection `conn`.
    fn pending_position(&self, conn: &str) -> (r: Option<usize>)
        ensures
            match r {
                Some(k) => next_pending(self.pending_view(), conn@) == Some(k as int) && k
                    < self.pending_view().len(),
                None => next_pending(self.pending_view(), conn@) is None,
            },
    {
        let ghost p = self.pending_view();
        let c = conn.to_string();
        let mut k: usize = 0;
        while k < self.pending.len()
            invariant
                p == self.pending@.map_values(|q: (String, String)| (q.0@, q.1@)),
                k <= p.len(),
                c@ == conn@,
                forall|j: int| 0 <= j < k ==> p[j].0 != conn@,
            decreases p.len() - k,
        {
            if self.pending[k].0 == c {
                proof {
                    assert(p[k as int].0 == conn@);
                    assert(first_pending(p, conn@, k as int));
                    let x = choose|i: int| first_pending(p, conn@, i);
                    assert(first_pending(p, conn@, x));
                    if x < k {
                        assert(p[x].0 != conn@);
                    }
                    if (k as int) < x {
                        assert(p[k as int].0 != conn@);
                    }
                }
                return Some(k);
            }
            k = k + 1;
        }
        proof {
            assert forall|i: int| !first_pending(p, conn@, i) by {
                if first_pending(p, conn@, i) {
                    assert(p[i].0 != conn@);
                }
            }
        }
        None
    }

    /// Dequeues the oldest unmatched request of `connection_id` and returns its
    /// id and timestamp.  `None` when the connection has no pending request,
    /// or when its request is no longer stored (the entry is dequeued all the
    /// same).
    pub fn get_next_pending_request_for_connection(&mut self, connection_id: &str) -> (r: Option<(String, i64)>)
        requires
            old(self).wf(),
        ensures
            final(self).wf(),
            final(self).entries() == old(self).entries(),
            final(self).capacity() == old(self).capacity(),
            match next_pending(old(self).pending_view(), connection_id@) {
                None => r is None && final(self).pending_view() == old(self).pending_view(),
                Some(k) => {
                    let id = old(self).pending_view()[k].1;
                    &&& final(self).pending_view() == old(self).pending_view().remove(k)
                    &&& match index_of_id(old(self).entries(), id) {
                        Some(i) => r matches Some((rid, ts)) && rid@ == id && ts
                            == old(self).entries()[i].request.timestamp,
                        None => r is None,
                    }
                },
            },
    {
        let ghost p = self.pending_view();
        let k = match self.pending_position(connection_id) {
            Some(k) => k,
            None => {
                return None;
            },
        };
        let (_, id) = self.pending.remove(k);
        assert(self.pending_view() =~= p.remove(k as int));
        match self.position_of(&id) {
            Some(i) => {
                let ts = self.exchanges[i].request.timestamp;
                Some((id, ts))
            },
            None => None,
        }
    }

    /// Attaches `response` to the exchange of its request and returns a copy
    /// of the completed exchange.  Does nothing and returns `None` when no
    /// exchange has the response's request id.
    pub fn store_response(&mut self, response: StoredResponse) -> (r: Option<RequestExchange>)
        requires
            old(self).wf(),
        ensures
            final(self).wf(),
            final(self).pending_view() == old(self).pending_view(),
            final(self).capacity() == old(self).capacity(),
            match index_of_id(old(self).entries(), response.request_id@) {
                Some(i) => {
                    let e = ExchangeView {
                        request: old(self).entries()[i].request,
                        response: Some(response@),
                    };
                    &&& final(self).entries() == old(self).entries().update(i, e)
                    &&& r matches Some(x) && x@ == e
                },
                None => r is None && final(self).entries() == old(self).entries(),
            },
    {
        let ghost s = self.entries();
        match self.position_of(&response.request_id) {
            Some(i) => {
                let ghost rv = response@;
                let ghost before = self.exchanges@;
                let mut ex = self.exchanges.remove(i);
                assert(ex@ == s[i as int]);
                ex.response = Some(response);
                let copy = ex.duplicate();
                assert(copy@.request == s[i as int].request);
                self.exchanges.insert(i, ex);
                let ghost e = ExchangeView { request: s[i as int].request, response: Some(rv) };
                assert(self.entries() =~= s.update(i as int, e));
                assert(unique_ids(self.entries())) by {
                    assert forall|x: int, y: int|
                        0 <= x < y < self.entries().len() implies self.entries()[x].request.id
                        != self.entries()[y].request.id by {
                        assert(self.entries()[x].request == s[x].request);
                        assert(self.entries()[y].request == s[y].request);
                    }
                }
                Some(copy)
            },
            None => None,
        }
    }

    /// A copy of the exchange whose request has id `id`.
    pub fn get_request_by_id(&self, id: &str) -> (r: Option<RequestExchange>)
        requires
            self.wf(),
        ensures
            match index_of_id(self.entries(), id@) {
                Some(i) => r matches Some(x) && x@ == self.entries()[i],
                None => r is None,
            },
    {
        let key = id.to_string();
        match self.position_of(&key) {
            Some(i) => {
                let x = self.exchanges[i].duplicate();
                assert(self.exchanges@[i as int]@ == self.entries()[i as int]);
                assert(x@.request.id == self.entries()[i as int].request.id);
                assert(x@ == self.entries()[i as int]);
                Some(x)
            },
            None => None,
        }
    }

    /// Copies of all stored exchanges, oldest stored first.
    pub fn get_all_requests(&self) -> (r: Vec<RequestExchange>)
        ensures
            exchange_views(r@) == self.entries(),
    {
        let mut out: Vec<RequestExchange> = Vec::new();
        let mut i: usize = 0;
        while i < self.exchanges.len()
            invariant
                i <= self.exchanges@.len(),
                exchange_views(out@) =~= exchange_views(self.exchanges@).take(i as int),
            decreases self.exchanges@.len() - i,
        {
            let ghost before = out@;
            out.push(self.exchanges[i].duplicate());
            assert(exchange_views(out@) =~= exchange_views(before).push(self.exchanges@[i as int]@));
            i = i + 1;
        }
        out
    }

    /// Number of stored exchanges.
    pub fn get_count(&self) -> (r: usize)
        ensures
            r == self.entries().len(),
    {
        self.exchanges.len()
    }

    /// Removes every stored exchange.
    pub fn clear(&mut self)
        ensures
            final(self).wf(),
            final(self).entries() == Seq::<ExchangeView>::empty(),
            final(self).pending_view() == old(self).pending_view(),
            final(self).capacity() == old(self).capacity(),
    {
        self.exchanges.clear();
        assert(self.entries() =~= Seq::<ExchangeView>::empty());
    }
}


/// `true` when an entry stamped `a` stays ahead of one stamped `t` in the
/// given order: no later (`desc`) or no earlier (`!desc`).
pub open spec fn goes_before(a: i64, t: i64, desc: bool) -> bool {
    if desc {
        a >= t
    } else {
        a <= t
    }
}

/// Where an exchange stamped `ts` goes in the sorted list `out`: after every
/// entry that stays ahead of it.
fn insert_position(out: &Vec<RequestExchange>, ts: i64, desc: bool) -> (k: usize)
    requires
        sorted_by_time(exchange_views(out@), desc),
    ensures
        k <= out@.len(),
        forall|j: int| 0 <= j < k ==> goes_before(out@[j].request.timestamp, ts, desc),
        forall|j: int|
            k <= j < out@.len() ==> !goes_before(#[trigger] out@[j].request.timestamp, ts, desc),
{
    let mut k: usize = 0;
    while k < out.len()
        invariant
            k <= out@.len(),
            sorted_by_time(exchange_views(out@), desc),
            forall|j: int| 0 <= j < k ==> goes_before(out@[j].request.timestamp, ts, desc),
        decreases out@.len() - k,
    {
        let a = out[k].request.timestamp;
        let ahead = if desc {
            a >= ts
        } else {
            a <= ts
        };
        if !ahead {
            proof {
                let v = exchange_views(out@);
                assert forall|j: int| k <= j < out@.len() implies !goes_before(
                    #[trigger] out@[j].request.timestamp,
                    ts,
                    desc,
                ) by {
                    assert(v[k as int] == out@[k as int]@);
                    assert(v[j] == out@[j]@);
                }
            }
            return k;
        }
        k = k + 1;
    }
    k
}

impl RequestStorage {
    /// Copies of the exchanges that `filter` matches, sorted by request time:
    /// oldest first for `Asc`, newest first otherwise.
    pub fn query_requests(&self, filter: &QueryFilter) -> (r: Vec<RequestExchange>)
        ensures
            exchange_views(r@).to_multiset() == matching(*filter, self.entries()).to_multiset(),
            sorted_by_time(exchange_views(r@), filter.spec_descending()),
    {
        let desc = match filter.sort_direction {
            Some(SortDirection::Asc) => false,
            _ => true,
        };
        let ghost s = self.entries();
        let mut out: Vec<RequestExchange> = Vec::new();
        let mut i: usize = 0;
        assert(s.take(0) =~= Seq::<ExchangeView>::empty());
        assert(exchange_views(out@) =~= Seq::<ExchangeView>::empty());
        while i < self.exchanges.len()
            invariant
                s == exchange_views(self.exchanges@),
                i <= s.len(),
                desc == filter.spec_descending(),
                exchange_views(out@).to_multiset() == matching(*filter, s.take(i as int)).to_multiset(),
                sorted_by_time(exchange_views(out@), desc),
            decreases s.len() - i,
        {
            let e = &self.exchanges[i];
            assert(s.take(i + 1).drop_last() =~= s.take(i as int));
            assert(s.take(i + 1).last() == e@);
            if filter.matches(e) {
                let x = e.duplicate();
                let ts = x.request.timestamp;
                let k = insert_position(&out, ts, desc);
                let ghost before = exchange_views(out@);
                let ghost xv = x@;
                out.insert(k, x);
                proof {
                    let after = exchange_views(out@);
                    assert(after =~= before.insert(k as int, xv));
                    vstd::seq_lib::to_multiset_insert(before, k as int, xv);
                    vstd::seq_lib::to_multiset_build(matching(*filter, s.take(i as int)), xv);
                    assert forall|a: int, b: int| 0 <= a < b < after.len() implies if desc {
                        after[a].request.timestamp >= after[b].request.timestamp
                    } else {
                        after[a].request.timestamp <= after[b].request.timestamp
                    } by {
                        if b < k {
                            assert(after[a] == before[a]);
                            assert(after[b] == before[b]);
                        } else if b == k {
                            assert(after[a] == before[a]);
                            assert(before[a] == out@[a]@);
                        } else if a < k {
                            assert(after[a] == before[a]);
                            assert(after[b] == before[b - 1]);
                            assert(before[a] == out@[a]@);
                            assert(before[b - 1] == out@[b]@);
                        } else if a == k {
                            assert(after[b] == before[b - 1]);
                            assert(before[b - 1] == out@[b]@);
                        } else {
                            assert(after[a] == before[a - 1]);
                            assert(after[b] == before[b - 1]);
                        }
                    }
                }
            }
            i = i + 1;
        }
        assert(s.take(s.len() as int) =~= s);
        out
    }
}


/// The contents of a list of WebSocket messages.
pub open spec fn message_views(v: Seq<StoredWebSocketMessage>) -> Seq<MessageView> {
    v.map_values(|m: StoredWebSocketMessage| m@)
}

/// The messages of `s` that `f` matches, in order.
pub open spec fn matching_messages(f: WebSocketMessageFilter, s: Seq<MessageView>) -> Seq<MessageView>
    decreases s.len(),
{
    if s.len() == 0 {
        Seq::empty()
    } else {
        let r = matching_messages(f, s.drop_last());
        if f.spec_matches(s.last()) {
            r.push(s.last())
        } else {
            r
        }
    }
}

/// `true` when no two messages of `s` share an id.
pub open spec fn unique_message_ids(s: Seq<MessageView>) -> bool {
    forall|i: int, j: int| 0 <= i < j < s.len() ==> s[i].id != s[j].id
}

/// `true` when `i` is the first message of `s` with id `id`.
pub open spec fn first_message_with_id(s: Seq<MessageView>, id: Seq<char>, i: int) -> bool {
    0 <= i < s.len() && s[i].id == id && forall|j: int| 0 <= j < i ==> s[j].id != id
}

/// Index of the message with id `id`.
pub open spec fn message_index_of_id(s: Seq<MessageView>, id: Seq<char>) -> Option<int> {
    if exists|i: int| first_message_with_id(s, id, i) {
        Some(choose|i: int| first_message_with_id(s, id, i))
    } else {
        None
    }
}

/// `true` when `i` is the oldest message of `s` captured before `now`: no
/// message is older, and none before it is as old.
pub open spec fn is_oldest_message(s: Seq<MessageView>, now: i64, i: int) -> bool {
    &&& 0 <= i < s.len()
    &&& s[i].timestamp < now
    &&& forall|j: int| 0 <= j < s.len() ==> s[i].timestamp <= s[j].timestamp
    &&& forall|j: int| 0 <= j < i ==> s[j].timestamp != s[i].timestamp
}

/// What storing `m` does to the messages `s` of a store holding at most
/// `max`: when full, the oldest message captured before `now` goes first;
/// then `m` replaces the message of its id, or is appended.
pub open spec fn store_message_spec(s: Seq<MessageView>, max: nat, now: i64, m: MessageView) -> Seq<MessageView> {
    let kept = if s.len() >= max && exists|i: int| is_oldest_message(s, now, i) {
        s.remove(choose|i: int| is_oldest_message(s, now, i))
    } else {
        s
    };
    match message_index_of_id(kept, m.id) {
        Some(i) => kept.update(i, m),
        None => kept.push(m),
    }
}

/// In-memory store of captured WebSocket frames.
#[derive(Clone, Debug)]
pub struct WebSocketMessageStorage {
    messages: Vec<StoredWebSocketMessage>,
    max_messages: usize,
}

impl WebSocketMessageStorage {
    /// The stored messages, oldest stored first.
    pub closed spec fn entries(&self) -> Seq<MessageView> {
        message_views(self.messages@)
    }

    /// The most messages the store keeps.
    pub closed spec fn capacity(&self) -> nat {
        self.max_messages as nat
    }

    /// No two stored messages share an id.
    pub closed spec fn wf(&self) -> bool {
        unique_message_ids(self.entries())
    }

    /// Creates a new storage that retains at most `max_messages` frames.
    pub fn new(max_messages: usize) -> (r: WebSocketMessageStorage)
        ensures
            r.wf(),
            r.entries() == Seq::<MessageView>::empty(),
            r.capacity() == max_messages,
    {
        let r = WebSocketMessageStorage { messages: Vec::new(), max_messages };
        assert(r.entries() =~= Seq::<MessageView>::empty());
        r
    }

    /// Position of the message with id `id`.
    fn position_of(&self, id: &String) -> (r: Option<usize>)
        ensures
            match r {
                Some(i) => message_index_of_id(self.entries(), id@) == Some(i as int) && i
                    < self.entries().len(),
                None => message_index_of_id(self.entries(), id@) is None,
            },
    {
        let ghost s = self.entries();
        let mut i: usize = 0;
        while i < self.messages.len()
            invariant
                s == message_views(self.messages@),
                i <= s.len(),
                forall|j: int| 0 <= j < i ==> s[j].id != id@,
            decreases s.len() - i,
        {
            if self.messages[i].id == *id {
                proof {
                    assert(first_message_with_id(s, id@, i as int));
                    let c = choose|k: int| first_message_with_id(s, id@, k);
                    assert(first_message_with_id(s, id@, c));
                    if c < i {
                        assert(s[c].id != id@);
                    }
                    if (i as int) < c {
                        assert(s[i as int].id != id@);
                    }
                }
                return Some(i);
            }
            i = i + 1;
        }
        proof {
            assert forall|k: int| !first_message_with_id(s, id@, k) by {
                if first_message_with_id(s, id@, k) {
                    assert(s[k].id != id@);
                }
            }
        }
        None
    }

    /// Stores `message` with `now` as the time; when the store is full the
    /// oldest message captured before `now` is evicted first.
    pub fn store_message_at(&mut self, message: StoredWebSocketMessage, now: i64)
        requires
            old(self).wf(),
        ensures
            final(self).wf(),
            final(self).entries() == store_message_spec(
                old(self).entries(),
                old(self).capacity(),
                now,
                message@,
            ),
            final(self).capacity() == old(self).capacity(),
    {
        let ghost s = self.entries();
        if self.messages.len() >= self.max_messages {
            let mut best: Option<usize> = None;
            let mut best_ts: i64 = now;
            let mut j: usize = 0;
            while j < self.messages.len()
                invariant
                    s == message_views(self.messages@),
                    j <= s.len(),
                    match best {
                        Some(b) => {
                            &&& b < j
                            &&& s[b as int].timestamp == best_ts
                            &&& best_ts < now
                            &&& forall|k: int| 0 <= k < j ==> best_ts <= s[k].timestamp
                            &&& forall|k: int| 0 <= k < b ==> s[k].timestamp != best_ts
                        },
                        None => best_ts == now && forall|k: int| 0 <= k < j ==> s[k].timestamp >= now,
                    },
                decreases s.len() - j,
            {
                let ts = self.messages[j].timestamp;
                if ts < best_ts {
                    best = Some(j);
                    best_ts = ts;
                }
                j = j + 1;
            }
            match best {
                Some(b) => {
                    proof {
                        assert(is_oldest_message(s, now, b as int));
                        let c = choose|i: int| is_oldest_message(s, now, i);
                        assert(is_oldest_message(s, now, c));
                        if c < b {
                            assert(s[c].timestamp != s[b as int].timestamp);
                        }
                        if (b as int) < c {
                            assert(s[b as int].timestamp != s[c].timestamp);
                        }
                    }
                    self.messages.remove(b);
                    assert(self.entries() =~= s.remove(b as int));
                    assert(unique_message_ids(self.entries())) by {
                        assert forall|x: int, y: int|
                            0 <= x < y < self.entries().len() implies self.entries()[x].id
                            != self.entries()[y].id by {
                            let xx = if x < b {
                                x
                            } else {
                                x + 1
                            };
                            let yy = if y < b {
                                y
                            } else {
                                y + 1
                            };
                            assert(self.entries()[x] == s[xx]);
                            assert(self.entries()[y] == s[yy]);
                        }
                    }
                },
                None => {
                    proof {
                        assert forall|i: int| !is_oldest_message(s, now, i) by {
                            if 0 <= i < s.len() {
                                assert(s[i].timestamp >= now);
                            }
                        }
                    }
                },
            }
        }
        let ghost kept = self.entries();
        let id = message.id.clone();
        match self.position_of(&id) {
            Some(i) => {
                let ghost m = message@;
                self.messages.set(i, message);
                assert(self.entries() =~= kept.update(i as int, m));
                assert(unique_message_ids(self.entries())) by {
                    assert forall|x: int, y: int|
                        0 <= x < y < self.entries().len() implies self.entries()[x].id
                        != self.entries()[y].id by {
                        if x != i && y != i {
                            assert(self.entries()[x] == kept[x]);
                            assert(self.entries()[y] == kept[y]);
                        } else if x == i {
                            assert(self.entries()[y] == kept[y]);
                        } else {
                            assert(self.entries()[x] == kept[x]);
                        }
                    }
                }
            },
            None => {
                let ghost m = message@;
                self.messages.push(message);
                assert(self.entries() =~= kept.push(m));
                assert(unique_message_ids(self.entries())) by {
                    assert forall|x: int, y: int|
                        0 <= x < y < self.entries().len() implies self.entries()[x].id
                        != self.entries()[y].id by {
                        assert(self.entries()[x] == kept[x]);
                        if y < kept.len() {
                            assert(self.entries()[y] == kept[y]);
                        } else {
                            assert(!first_message_with_id(kept, m.id, x));
                        }
                    }
                }
            },
        }
    }

    /// Stores `message`, evicting the oldest entry when the capacity is full.
    pub fn store_message(&mut self, message: StoredWebSocketMessage)
        requires
            old(self).wf(),
        ensures
            final(self).wf(),
            exists|now: i64|
                final(self).entries() == store_message_spec(
                    old(self).entries(),
                    old(self).capacity(),
                    now,
                    message@,
                ),
            final(self).capacity() == old(self).capacity(),
    {
        let now = current_time();
        self.store_message_at(message, now);
    }

    /// Copies of the stored messages that `filter` matches, in the order they
    /// were stored.
    pub fn query_messages(&self, filter: &WebSocketMessageFilter) -> (r: Vec<StoredWebSocketMessage>)
        ensures
            message_views(r@) == matching_messages(*filter, self.entries()),
    {
        let ghost s = self.entries();
        let mut out: Vec<StoredWebSocketMessage> = Vec::new();
        let mut i: usize = 0;
        assert(s.take(0) =~= Seq::<MessageView>::empty());
        while i < self.messages.len()
            invariant
                s == message_views(self.messages@),
                i <= s.len(),
                message_views(out@) =~= matching_messages(*filter, s.take(i as int)),
            decreases s.len() - i,
        {
            let m = &self.messages[i];
            assert(s.take(i + 1).drop_last() =~= s.take(i as int));
            assert(s.take(i + 1).last() == m@);
            if filter.matches(m) {
                let ghost before = out@;
                out.push(m.duplicate());
                assert(message_views(out@) =~= message_views(before).push(m@));
            }
            i = i + 1;
        }
        assert(s.take(s.len() as int) =~= s);
        out
    }

    /// Copies of all stored messages, oldest stored first.
    pub fn get_all_messages(&self) -> (r: Vec<StoredWebSocketMessage>)
        ensures
            message_views(r@) == self.entries(),
    {
        let mut out: Vec<StoredWebSocketMessage> = Vec::new();
        let mut i: usize = 0;
        while i < self.messages.len()
            invariant
                i <= self.messages@.len(),
                message_views(out@) =~= message_views(self.messages@).take(i as int),
            decreases self.messages@.len() - i,
        {
            let ghost before = out@;
            out.push(self.messages[i].duplicate());
            assert(message_views(out@) =~= message_views(before).push(self.messages@[i as int]@));
            i = i + 1;
        }
        out
    }

    /// A copy of the message with id `id`.
    pub fn get_message_by_id(&self, id: &str) -> (r: Option<StoredWebSocketMessage>)
        ensures
            match message_index_of_id(self.entries(), id@) {
                Some(i) => r matches Some(x) && x@ == self.entries()[i],
                None => r is None,
            },
    {
        let key = id.to_string();
        match self.position_of(&key) {
            Some(i) => {
                let x = self.messages[i].duplicate();
                assert(self.messages@[i as int]@ == self.entries()[i as int]);
                Some(x)
            },
            None => None,
        }
    }

    /// Number of stored messages.
    pub fn get_count(&self) -> (r: usize)
        ensures
            r == self.entries().len(),
    {
        self.messages.len()
    }
}


proof fn lemma_oldest_message_exists(s: Seq<MessageView>, now: i64)
    requires
        s.len() > 0,
        forall|j: int| 0 <= j < s.len() ==> s[j].timestamp < now,
    ensures
        exists|i: int| is_oldest_message(s, now, i),
    decreases s.len(),
{
    if s.len() == 1 {
        assert(is_oldest_message(s, now, 0));
    } else {
        let t = s.drop_last();
        lemma_oldest_message_exists(t, now);
        let i = choose|i: int| is_oldest_message(t, now, i);
        assert(is_oldest_message(t, now, i));
        let l = s.len() - 1;
        if s[l].timestamp < t[i].timestamp {
            assert forall|j: int| 0 <= j < s.len() implies s[l].timestamp <= s[j].timestamp
                && (j < l ==> s[j].timestamp != s[l].timestamp) by {
                if j < l {
                    assert(s[j] == t[j]);
                    assert(t[i].timestamp <= t[j].timestamp);
                }
            }
            assert(is_oldest_message(s, now, l));
        } else {
            assert forall|j: int| 0 <= j < s.len() implies s[i].timestamp <= s[j].timestamp
                && (j < i ==> s[j].timestamp != s[i].timestamp) by {
                assert(s[i] == t[i]);
                if j < l {
                    assert(s[j] == t[j]);
                }
            }
            assert(is_oldest_message(s, now, i));
        }
    }
}

/// A message store never holds more messages than its capacity: storing
/// into a store that is within a capacity of at least one, whose messages
/// were all captured before the time of the store, leaves it within that
/// capacity.
pub proof fn lemma_store_message_keeps_capacity(s: Seq<MessageView>, max: nat, now: i64, m: MessageView)
    requires
        max >= 1,
        s.len() <= max,
        forall|j: int| 0 <= j < s.len() ==> s[j].timestamp < now,
    ensures
        store_message_spec(s, max, now, m).len() <= max,
{
    if s.len() >= max {
        lemma_oldest_message_exists(s, now);
    }
}

/// A stored message can be read back: after storing `m`, the message found
/// under its id is `m`.
pub proof fn lemma_store_message_then_find(s: Seq<MessageView>, max: nat, now: i64, m: MessageView)
    ensures
        ({
            let r = store_message_spec(s, max, now, m);
            message_index_of_id(r, m.id) matches Some(i) && r[i] == m
        }),
{
    let kept = if s.len() >= max && exists|i: int| is_oldest_message(s, now, i) {
        s.remove(choose|i: int| is_oldest_message(s, now, i))
    } else {
        s
    };
    let r = store_message_spec(s, max, now, m);
    let id = m.id;
    match message_index_of_id(kept, id) {
        Some(i) => {
            let i = choose|i: int| first_message_with_id(kept, id, i);
            assert(first_message_with_id(kept, id, i));
            assert(first_message_with_id(r, id, i));
            let c = choose|c: int| first_message_with_id(r, id, c);
            assert(first_message_with_id(r, id, c));
            if c < i {
                assert(r[c] == kept[c]);
            }
            if i < c {
                assert(r[i].id != id);
            }
        },
        None => {
            let l = kept.len() as int;
            assert forall|j: int| 0 <= j < l implies r[j].id != id by {
                assert(r[j] == kept[j]);
                if kept[j].id == id {
                    lemma_first_message_exists(kept, id, j);
                }
            }
            assert(first_message_with_id(r, id, l));
            let c = choose|c: int| first_message_with_id(r, id, c);
            assert(first_message_with_id(r, id, c));
            if c < l {
                assert(r[c].id != id);
            }
        },
    }
}

proof fn lemma_first_message_exists(s: Seq<MessageView>, id: Seq<char>, j: int)
    requires
        0 <= j < s.len(),
        s[j].id == id,
    ensures
        exists|i: int| first_message_with_id(s, id, i),
    decreases j,
{
    if exists|k: int| 0 <= k < j && s[k].id == id {
        let k = choose|k: int| 0 <= k < j && s[k].id == id;
        lemma_first_message_exists(s, id, k);
    } else {
        assert(first_message_with_id(s, id, j));
    }
}

proof fn lemma_oldest_exists(s: Seq<ExchangeView>, now: i64)
    requires
        s.len() > 0,
        forall|j: int| 0 <= j < s.len() ==> s[j].request.timestamp < now,
    ensures
        exists|i: int| is_oldest(s, now, i),
    decreases s.len(),
{
    if s.len() == 1 {
        assert(is_oldest(s, now, 0));
    } else {
        let t = s.drop_last();
        lemma_oldest_exists(t, now);
        let i = choose|i: int| is_oldest(t, now, i);
        assert(is_oldest(t, now, i));
        let l = s.len() - 1;
        if s[l].request.timestamp < t[i].request.timestamp {
            assert forall|j: int| 0 <= j < s.len() implies s[l].request.timestamp <= s[j].request.timestamp
                && (j < l ==> s[j].request.timestamp != s[l].request.timestamp) by {
                if j < l {
                    assert(s[j] == t[j]);
                    assert(t[i].request.timestamp <= t[j].request.timestamp);
                }
            }
            assert(is_oldest(s, now, l));
        } else {
            assert forall|j: int| 0 <= j < s.len() implies s[i].request.timestamp <= s[j].request.timestamp
                && (j < i ==> s[j].request.timestamp != s[i].request.timestamp) by {
                assert(s[i] == t[i]);
                if j < l {
                    assert(s[j] == t[j]);
                }
            }
            assert(is_oldest(s, now, i));
        }
    }
}

/// A store never holds more exchanges than its capacity: storing into a store
/// that is within a capacity of at least one, whose exchanges were all
/// received before the time of the store, leaves it within that capacity.
pub proof fn lemma_store_keeps_capacity(s: Seq<ExchangeView>, max: nat, now: i64, e: ExchangeView)
    requires
        max >= 1,
        s.len() <= max,
        forall|j: int| 0 <= j < s.len() ==> s[j].request.timestamp < now,
    ensures
        store_exchange_spec(s, max, now, e).len() <= max,
{
    if s.len() >= max {
        lemma_oldest_exists(s, now);
        let i = choose|i: int| is_oldest(s, now, i);
        assert(is_oldest(s, now, i));
    }
}

/// What is stored can be read back: after storing `e`, the exchange found
/// under its request id is `e`.
pub proof fn lemma_store_then_find(s: Seq<ExchangeView>, max: nat, now: i64, e: ExchangeView)
    ensures
        ({
            let r = store_exchange_spec(s, max, now, e);
            index_of_id(r, e.request.id) matches Some(i) && r[i] == e
        }),
{
    let kept = if s.len() >= max {
        evict_oldest(s, now)
    } else {
        s
    };
    let r = store_exchange_spec(s, max, now, e);
    let id = e.request.id;
    match index_of_id(kept, id) {
        Some(i) => {
            let i = choose|i: int| first_with_id(kept, id, i);
            assert(first_with_id(kept, id, i));
            assert(first_with_id(r, id, i));
            let c = choose|c: int| first_with_id(r, id, c);
            assert(first_with_id(r, id, c));
            if c < i {
                assert(r[c] == kept[c]);
            }
            if i < c {
                assert(r[i].request.id != id);
            }
        },
        None => {
            let l = kept.len() as int;
            assert forall|j: int| 0 <= j < l implies r[j].request.id != id by {
                assert(r[j] == kept[j]);
                if kept[j].request.id == id {
                    let m = choose|m: int| 0 <= m <= j && kept[m].request.id == id && forall|q: int|
                        0 <= q < m ==> kept[q].request.id != id;
                    lemma_first_id_exists(kept, id, j);
                }
            }
            assert(first_with_id(r, id, l));
            let c = choose|c: int| first_with_id(r, id, c);
            assert(first_with_id(r, id, c));
            if c < l {
                assert(r[c].request.id != id);
            }
        },
    }
}

proof fn lemma_first_id_exists(s: Seq<ExchangeView>, id: Seq<char>, j: int)
    requires
        0 <= j < s.len(),
        s[j].request.id == id,
    ensures
        exists|i: int| first_with_id(s, id, i),
    decreases j,
{
    if exists|k: int| 0 <= k < j && s[k].request.id == id {
        let k = choose|k: int| 0 <= k < j && s[k].request.id == id;
        lemma_first_id_exists(s, id, k);
    } else {
        assert(first_with_id(s, id, j));
    }
}

proof fn lemma_first_pending_exists(p: Seq<(Seq<char>, Seq<char>)>, c: Seq<char>, j: int)
    requires
        0 <= j < p.len(),
        p[j].0 == c,
    ensures
        exists|i: int| first_pending(p, c, i),
    decreases j,
{
    if exists|k: int| 0 <= k < j && p[k].0 == c {
        let k = choose|k: int| 0 <= k < j && p[k].0 == c;
        lemma_first_pending_exists(p, c, k);
    } else {
        assert(first_pending(p, c, j));
    }
}

proof fn lemma_queue_empty(p: Seq<(Seq<char>, Seq<char>)>, c: Seq<char>)
    requires
        forall|j: int| 0 <= j < p.len() ==> p[j].0 != c,
    ensures
        queue_of(p, c) == Seq::<Seq<char>>::empty(),
    decreases p.len(),
{
    if p.len() > 0 {
        lemma_queue_empty(p.drop_last(), c);
    }
}

proof fn lemma_queue_remove(p: Seq<(Seq<char>, Seq<char>)>, c: Seq<char>, k: int, d: Seq<char>)
    requires
        first_pending(p, c, k),
    ensures
        queue_of(p, c).len() > 0,
        queue_of(p, c)[0] == p[k].1,
        queue_of(p.remove(k), c) == queue_of(p, c).drop_first(),
        d != c ==> queue_of(p.remove(k), d) == queue_of(p, d),
    decreases p.len(),
{
    let l = p.len() - 1;
    let q = p.remove(k);
    if k == l {
        lemma_queue_empty(p.drop_last(), c);
        assert(q =~= p.drop_last());
        assert(queue_of(p, c) =~= seq![p[l].1]);
    } else {
        let t = p.drop_last();
        assert(first_pending(t, c, k));
        lemma_queue_remove(t, c, k, d);
        assert(q.drop_last() =~= t.remove(k));
        assert(q.last() == p.last());
        if p.last().0 == c {
            assert(queue_of(q, c) =~= queue_of(t, c).drop_first().push(p.last().1));
            assert(queue_of(p, c) =~= queue_of(t, c).push(p.last().1));
        }
    }
}

/// Responses are matched to the requests of their connection first in,
/// first out: queueing a request puts its id at the back of its connection's
/// queue only, and the entry the store dequeues for a connection is the front
/// of that connection's queue, whose removal leaves every other queue as it
/// was.
pub proof fn lemma_pending_fifo(p: Seq<(Seq<char>, Seq<char>)>, c: Seq<char>, id: Seq<char>, d: Seq<char>)
    ensures
        queue_of(p.push((c, id)), c) == queue_of(p, c).push(id),
        d != c ==> queue_of(p.push((c, id)), d) == queue_of(p, d),
        match next_pending(p, c) {
            None => queue_of(p, c).len() == 0,
            Some(k) => {
                &&& queue_of(p, c).len() > 0
                &&& p[k].1 == queue_of(p, c)[0]
                &&& queue_of(p.remove(k), c) == queue_of(p, c).drop_first()
                &&& (d != c ==> queue_of(p.remove(k), d) == queue_of(p, d))
            },
        },
{
    assert(p.push((c, id)).drop_last() =~= p);
    match next_pending(p, c) {
        None => {
            assert forall|j: int| 0 <= j < p.len() implies p[j].0 != c by {
                if p[j].0 == c {
                    lemma_first_pending_exists(p, c, j);
                }
            }
            lemma_queue_empty(p, c);
        },
        Some(k) => {
            let k = choose|i: int| first_pending(p, c, i);
            assert(first_pending(p, c, k));
            lemma_queue_remove(p, c, k, d);
        },
    }
}


/// `p` with `(c, id)` appended for each id of `ids`, in order: the queue
/// after queueing those requests on connection `c`.
pub open spec fn push_all(p: Seq<(Seq<char>, Seq<char>)>, c: Seq<char>, ids: Seq<Seq<char>>) -> Seq<(Seq<char>, Seq<char>)>
    decreases ids.len(),
{
    if ids.len() == 0 {
        p
    } else {
        push_all(p, c, ids.drop_last()).push((c, ids.last()))
    }
}

/// The ids that the next `k` lookups of connection `c` dequeue from `p`, in
/// order; a lookup that finds nothing ends the list.
pub open spec fn dequeue_n(p: Seq<(Seq<char>, Seq<char>)>, c: Seq<char>, k: nat) -> Seq<Seq<char>>
    decreases k,
{
    if k == 0 {
        Seq::empty()
    } else {
        match next_pending(p, c) {
            Some(i) => seq![p[i].1] + dequeue_n(p.remove(i), c, (k - 1) as nat),
            None => Seq::empty(),
        }
    }
}

/// Lookups dequeue a connection's requests in the order they were queued:
/// queueing `ids` on connection `c` appends them to its queue, and `k`
/// lookups of `c` return the first `k` ids of the queue (all of it, then
/// nothing more, when `k` is larger).  So after queueing r1..rk on a
/// connection with nothing waiting, the next k lookups return r1..rk in that
/// order and the one after returns nothing.
pub proof fn lemma_pending_fifo_many(p: Seq<(Seq<char>, Seq<char>)>, c: Seq<char>, ids: Seq<Seq<char>>, k: nat)
    ensures
        queue_of(push_all(p, c, ids), c) == queue_of(p, c) + ids,
        dequeue_n(p, c, k) == if k <= queue_of(p, c).len() {
            queue_of(p, c).take(k as int)
        } else {
            queue_of(p, c)
        },
    decreases ids.len() + k,
{
    if ids.len() > 0 {
        lemma_pending_fifo_many(p, c, ids.drop_last(), 0);
        lemma_pending_fifo(push_all(p, c, ids.drop_last()), c, ids.last(), c);
        assert(queue_of(p, c) + ids.drop_last() + seq![ids.last()] =~= queue_of(p, c) + ids);
        assert((queue_of(p, c) + ids.drop_last()).push(ids.last()) =~= queue_of(p, c) + ids);
    }
    if k > 0 {
        lemma_pending_fifo(p, c, Seq::empty(), c);
        match next_pending(p, c) {
            Some(i) => {
                lemma_pending_fifo_many(p.remove(i), c, Seq::empty(), (k - 1) as nat);
                let q = queue_of(p, c);
                assert(queue_of(p.remove(i), c) == q.drop_first());
                if k <= q.len() {
                    assert(seq![q[0]] + q.drop_first().take(k - 1) =~= q.take(k as int));
                } else {
                    assert(seq![q[0]] + q.drop_first() =~= q);
                }
            },
            None => {},
        }
    } else {
        assert(queue_of(p, c).take(0) =~= Seq::<Seq<char>>::empty());
    }
}

/// Requests queued on a connection with nothing waiting come out in the order
/// they were queued, then nothing: after queueing `ids` on `c` (as
/// `store_request_with_connection_at` does, one call per id), `ids.len()`
/// lookups of `c` (as `get_next_pending_request_for_connection` makes them,
/// each taking the front of the queue) take exactly `ids`, in order, and the
/// lookup after them finds nothing.  A connection with nothing queued (one
/// never used) finds nothing at once.
pub proof fn lemma_pending_pops_in_order(p: Seq<(Seq<char>, Seq<char>)>, c: Seq<char>, ids: Seq<Seq<char>>)
    requires
        queue_of(p, c).len() == 0,
    ensures
        dequeue_n(push_all(p, c, ids), c, ids.len() + 1) == ids,
        dequeue_n(push_all(p, c, ids), c, ids.len()) == ids,
        next_pending(p, c) is None,
{
    let q = push_all(p, c, ids);
    lemma_pending_fifo_many(p, c, ids, 0);
    lemma_pending_fifo_many(q, c, Seq::empty(), ids.len() + 1);
    lemma_pending_fifo_many(q, c, Seq::empty(), ids.len());
    lemma_pending_fifo(p, c, Seq::empty(), c);
    assert(queue_of(p, c) + ids =~= ids);
    assert(ids.take(ids.len() as int) =~= ids);
}

/// A header list answers with what was last stored: after storing `v` under
/// `k`, looking `k` up gives `v`, and the other names keep their values.
pub proof fn lemma_header_insert_then_get(h: Seq<(Seq<char>, Seq<char>)>, k: Seq<char>, v: Seq<char>, other: Seq<char>)
    ensures
        header_lookup(header_insert(h, k, v), k) == Some(v),
        other != k ==> header_lookup(header_insert(h, k, v), other) == header_lookup(h, other),
{
    let t = header_insert(h, k, v);
    if exists|i: int| 0 <= i < h.len() && h[i].0 == k {
        let i = choose|i: int|
            0 <= i < h.len() && h[i].0 == k && forall|j: int| 0 <= j < i ==> h[j].0 != k;
        lemma_first_key_exists(h, k);
        assert(0 <= i < h.len() && h[i].0 == k && forall|j: int| 0 <= j < i ==> h[j].0 != k);
        assert(t == h.update(i, (k, v)));
        lemma_first_key(t, k, i, v);
        if other != k {
            lemma_lookup_unchanged(h, t, other);
        }
    } else {
        assert(t == h.push((k, v)));
        let l = h.len() as int;
        assert forall|j: int| 0 <= j < l implies t[j].0 != k by {
            assert(t[j] == h[j]);
        }
        lemma_first_key(t, k, l, v);
        if other != k {
            lemma_lookup_unchanged(h, t, other);
        }
    }
}

proof fn lemma_first_key_exists(h: Seq<(Seq<char>, Seq<char>)>, k: Seq<char>)
    requires
        exists|i: int| 0 <= i < h.len() && h[i].0 == k,
    ensures
        exists|i: int| 0 <= i < h.len() && h[i].0 == k && forall|j: int| 0 <= j < i ==> h[j].0 != k,
{
    let w = choose|i: int| 0 <= i < h.len() && h[i].0 == k;
    lemma_first_key_below(h, k, w);
}

proof fn lemma_first_key_below(h: Seq<(Seq<char>, Seq<char>)>, k: Seq<char>, w: int)
    requires
        0 <= w < h.len(),
        h[w].0 == k,
    ensures
        exists|i: int| 0 <= i < h.len() && h[i].0 == k && forall|j: int| 0 <= j < i ==> h[j].0 != k,
    decreases w,
{
    if exists|i: int| 0 <= i < w && h[i].0 == k {
        let i = choose|i: int| 0 <= i < w && h[i].0 == k;
        lemma_first_key_below(h, k, i);
    } else {
        assert(0 <= w < h.len() && h[w].0 == k && forall|j: int| 0 <= j < w ==> h[j].0 != k);
    }
}

proof fn lemma_lookup_unchanged(h: Seq<(Seq<char>, Seq<char>)>, t: Seq<(Seq<char>, Seq<char>)>, other: Seq<char>)
    requires
        h.len() <= t.len(),
        forall|j: int| 0 <= j < h.len() && (h[j].0 == other || t[j].0 == other) ==> t[j] == h[j],
        forall|j: int| h.len() <= j < t.len() ==> t[j].0 != other,
    ensures
        header_lookup(t, other) == header_lookup(h, other),
{
    if exists|i: int| 0 <= i < h.len() && h[i].0 == other {
        lemma_first_key_exists(h, other);
        let i = choose|i: int|
            0 <= i < h.len() && h[i].0 == other && forall|j: int| 0 <= j < i ==> h[j].0 != other;
        assert(0 <= i < h.len() && h[i].0 == other && forall|j: int| 0 <= j < i ==> h[j].0 != other);
        lemma_first_key(h, other, i, other);
        assert forall|j: int| 0 <= j < i implies t[j].0 != other by {
            if t[j].0 == other {
                assert(t[j] == h[j]);
            }
        }
        lemma_first_key(t, other, i, other);
    } else {
        assert forall|j: int| 0 <= j < t.len() implies t[j].0 != other by {
            if j < h.len() && t[j].0 == other {
                assert(t[j] == h[j]);
            }
        }
    }
}

/// A response attached to its request is found with it: after the update that
/// `store_response` makes, the exchange found under the request id is the
/// same one, now holding the response.
pub proof fn lemma_response_then_find(s: Seq<ExchangeView>, resp: ResponseView)
    requires
        unique_ids(s),
        index_of_id(s, resp.request_id) is Some,
    ensures
        ({
            let i = index_of_id(s, resp.request_id)->0;
            let t = s.update(i, ExchangeView { request: s[i].request, response: Some(resp) });
            index_of_id(t, resp.request_id) == Some(i) && t[i].response == Some(resp)
        }),
{
    let id = resp.request_id;
    let i = choose|i: int| first_with_id(s, id, i);
    assert(first_with_id(s, id, i));
    let t = s.update(i, ExchangeView { request: s[i].request, response: Some(resp) });
    assert(first_with_id(t, id, i));
    let c = choose|c: int| first_with_id(t, id, c);
    assert(first_with_id(t, id, c));
    if c < i {
        assert(t[c] == s[c]);
    }
    if i < c {
        assert(t[i].request.id == id);
    }
}

} // verus!
