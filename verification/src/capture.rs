//! Recognition of captured HTTP messages and WebSocket frames.
use vstd::prelude::*;

use crate::storage::{
    header_insert, header_lookup, header_pairs, index_of_id, next_pending, current_time,
    lemma_header_insert_then_get,
    store_exchange_spec, store_message_spec, ExchangeView, Headers, MessageView, RequestExchange,
    RequestStorage, RequestView, ResponseView, StoredRequest, StoredResponse,
    StoredWebSocketMessage, WebSocketMessageStorage, WebSocketMessageType,
};
use crate::text::{
    chars_contain, chars_eq, chars_start_with, contains_seq, copy_range, find_char_from, first_at,
    spec_to_lowercase, spec_utf8_lossy, str_chars, string_from_chars, to_lowercase, trim,
    trim_chars, utf8_lossy, occurs_at, bytes_occur_at, lines, split_lines, split_words, views,
    words, parse_unsigned, parse_unsigned_chars, ascii_lowercase, is_ascii_text,
};

verus! {

/// Verbosity of stdout logging for captured traffic.
#[derive(Debug, Clone, Copy, PartialEq, Eq, Structural)]
pub enum LogLevel {
    Off,
    Basic,
    Full,
}

impl LogLevel {
    /// The lower-case name of the level.
    pub open spec fn spec_name(self) -> Seq<char> {
        match self {
            LogLevel::Off => seq!['o', 'f', 'f'],
            LogLevel::Basic => seq!['b', 'a', 's', 'i', 'c'],
            LogLevel::Full => seq!['f', 'u', 'l', 'l'],
        }
    }

    /// The level a lower-case configuration string names: `off`, `basic` or
    /// `full`; anything else means `Basic`.
    pub open spec fn spec_from_lowercase(l: Seq<char>) -> LogLevel {
        if l == seq!['o', 'f', 'f'] {
            LogLevel::Off
        } else if l == seq!['b', 'a', 's', 'i', 'c'] {
            LogLevel::Basic
        } else if l == seq!['f', 'u', 'l', 'l'] {
            LogLevel::Full
        } else {
            LogLevel::Basic
        }
    }

    /// The level a configuration string names: that of its lower-case form.
    pub open spec fn spec_from_name(s: Seq<char>) -> LogLevel {
        LogLevel::spec_from_lowercase(spec_to_lowercase(s))
    }

    /// The level that the lower-case form `lower` of a configuration string
    /// names (see `spec_from_lowercase`).
    pub fn from_lowercase(lower: &[char]) -> (r: LogLevel)
        ensures
            r == LogLevel::spec_from_lowercase(lower@),
    {
        if chars_eq(lower, &['o', 'f', 'f']) {
            LogLevel::Off
        } else if chars_eq(lower, &['b', 'a', 's', 'i', 'c']) {
            LogLevel::Basic
        } else if chars_eq(lower, &['f', 'u', 'l', 'l']) {
            LogLevel::Full
        } else {
            LogLevel::Basic
        }
    }

    /// The lower-case name of the level (what `Display` prints).
    pub fn to_string(&self) -> (r: String)
        ensures
            r@ == self.spec_name(),
    {
        match self {
            LogLevel::Off => string_from_chars(&['o', 'f', 'f']),
            LogLevel::Basic => string_from_chars(&['b', 'a', 's', 'i', 'c']),
            LogLevel::Full => string_from_chars(&['f', 'u', 'l', 'l']),
        }
    }
}

impl<'a> From<&'a str> for LogLevel {
    fn from(s: &'a str) -> (r: LogLevel)
        ensures
            is_ascii_text(s@) ==> r == LogLevel::spec_from_lowercase(ascii_lowercase(s@)),
    {
        let lower = to_lowercase(&str_chars(s));
        LogLevel::from_lowercase(&lower)
    }
}

impl<'a> vstd::std_specs::convert::FromSpecImpl<&'a str> for LogLevel {
    open spec fn obeys_from_spec() -> bool {
        true
    }

    open spec fn from_spec(s: &'a str) -> LogLevel {
        LogLevel::spec_from_name(s@)
    }
}

/// A level's name reads back as that level: the name `to_string` gives is
/// ASCII text, and its lower-case form names the same level.
pub proof fn lemma_log_level_name_round_trip(level: LogLevel)
    ensures
        is_ascii_text(level.spec_name()),
        LogLevel::spec_from_lowercase(ascii_lowercase(level.spec_name())) == level,
{
    let n = level.spec_name();
    assert(ascii_lowercase(n) =~= n);
}

// ── HTTP messages ────────────────────────────────────────────────────────────

/// The request-line method tokens: `GET POST PUT DELETE HEAD OPTIONS PATCH`.
pub open spec fn spec_http_methods() -> Seq<Seq<char>> {
    seq![
        seq!['G', 'E', 'T'],
        seq!['P', 'O', 'S', 'T'],
        seq!['P', 'U', 'T'],
        seq!['D', 'E', 'L', 'E', 'T', 'E'],
        seq!['H', 'E', 'A', 'D'],
        seq!['O', 'P', 'T', 'I', 'O', 'N', 'S'],
        seq!['P', 'A', 'T', 'C', 'H'],
    ]
}

/// `true` when `line` starts with one of the method tokens.
pub open spec fn spec_is_request_line(line: Seq<char>) -> bool {
    exists|m: int| 0 <= m < spec_http_methods().len() && spec_http_methods()[m].is_prefix_of(line)
}

/// `true` when `line` starts with `HTTP/`, as a status line does.
pub open spec fn spec_is_status_line(line: Seq<char>) -> bool {
    seq!['H', 'T', 'T', 'P', '/'].is_prefix_of(line)
}

/// Returns `true` if `line` starts with a known HTTP method token.
pub fn is_http_request_line(line: &[char]) -> (r: bool)
    ensures
        r == spec_is_request_line(line@),
{
    let r = chars_start_with(line, &['G', 'E', 'T']) || chars_start_with(line, &['P', 'O', 'S', 'T'])
        || chars_start_with(line, &['P', 'U', 'T']) || chars_start_with(
        line,
        &['D', 'E', 'L', 'E', 'T', 'E'],
    ) || chars_start_with(line, &['H', 'E', 'A', 'D']) || chars_start_with(
        line,
        &['O', 'P', 'T', 'I', 'O', 'N', 'S'],
    ) || chars_start_with(line, &['P', 'A', 'T', 'C', 'H']);
    proof {
        let ms = spec_http_methods();
        if r {
            if seq!['G', 'E', 'T'].is_prefix_of(line@) {
                assert(ms[0].is_prefix_of(line@));
            } else if seq!['P', 'O', 'S', 'T'].is_prefix_of(line@) {
                assert(ms[1].is_prefix_of(line@));
            } else if seq!['P', 'U', 'T'].is_prefix_of(line@) {
                assert(ms[2].is_prefix_of(line@));
            } else if seq!['D', 'E', 'L', 'E', 'T', 'E'].is_prefix_of(line@) {
                assert(ms[3].is_prefix_of(line@));
            } else if seq!['H', 'E', 'A', 'D'].is_prefix_of(line@) {
                assert(ms[4].is_prefix_of(line@));
            } else if seq!['O', 'P', 'T', 'I', 'O', 'N', 'S'].is_prefix_of(line@) {
                assert(ms[5].is_prefix_of(line@));
            } else {
                assert(ms[6].is_prefix_of(line@));
            }
        } else {
            assert forall|m: int| 0 <= m < ms.len() implies !ms[m].is_prefix_of(line@) by {
                assert(m == 0 || m == 1 || m == 2 || m == 3 || m == 4 || m == 5 || m == 6);
            }
        }
    }
    r
}

/// Returns `true` if `line` starts with `HTTP/`.
pub fn is_http_status_line(line: &[char]) -> (r: bool)
    ensures
        r == spec_is_status_line(line@),
{
    chars_start_with(line, &['H', 'T', 'T', 'P', '/'])
}

/// `true` when the blank line `\r\n\r\n` starts at `i`.
pub open spec fn crlf2_at(s: Seq<u8>, i: int) -> bool {
    occurs_at(s, seq![13u8, 10u8, 13u8, 10u8], i)
}

/// `true` when the blank line `\n\n` starts at `i`.
pub open spec fn lf2_at(s: Seq<u8>, i: int) -> bool {
    occurs_at(s, seq![10u8, 10u8], i)
}

/// `true` when `i` is the first position of `\r\n\r\n`.
pub open spec fn first_crlf2(s: Seq<u8>, i: int) -> bool {
    crlf2_at(s, i) && forall|j: int| 0 <= j < i ==> !crlf2_at(s, j)
}

/// `true` when `i` is the first position of `\n\n`.
pub open spec fn first_lf2(s: Seq<u8>, i: int) -> bool {
    lf2_at(s, i) && forall|j: int| 0 <= j < i ==> !lf2_at(s, j)
}

/// The bytes after the header/body separator: after the first `\r\n\r\n`, or
/// failing that after the first `\n\n`; empty when there is neither.
pub open spec fn spec_body_of(raw: Seq<u8>) -> Seq<u8> {
    if exists|i: int| first_crlf2(raw, i) {
        raw.skip((choose|i: int| first_crlf2(raw, i)) + 4)
    } else if exists|i: int| first_lf2(raw, i) {
        raw.skip((choose|i: int| first_lf2(raw, i)) + 2)
    } else {
        Seq::empty()
    }
}

proof fn lemma_first_unique(s: Seq<u8>, i: int, crlf: bool)
    requires
        crlf ==> first_crlf2(s, i),
        !crlf ==> first_lf2(s, i),
    ensures
        crlf ==> (choose|k: int| first_crlf2(s, k)) == i,
        !crlf ==> (choose|k: int| first_lf2(s, k)) == i,
{
    if crlf {
        let c = choose|k: int| first_crlf2(s, k);
        assert(first_crlf2(s, c));
        if c < i {
            assert(!crlf2_at(s, c));
        }
        if i < c {
            assert(!crlf2_at(s, i));
        }
    } else {
        let c = choose|k: int| first_lf2(s, k);
        assert(first_lf2(s, c));
        if c < i {
            assert(!lf2_at(s, c));
        }
        if i < c {
            assert(!lf2_at(s, i));
        }
    }
}

/// Extracts the body portion from a raw HTTP message by finding the header/body
/// separator (`\r\n\r\n`, or `\n\n` as a fallback).  Returns an empty `Vec`
/// when no separator is found or when `has_body` is `false`.
pub fn extract_body_from_raw(raw: &[u8], has_body: bool) -> (r: Vec<u8>)
    ensures
        r@ == (if has_body {
            spec_body_of(raw@)
        } else {
            Seq::empty()
        }),
{
    if !has_body {
        return Vec::new();
    }
    let n = raw.len();
    let mut i: usize = 0;
    while n >= 4 && i <= n - 4
        invariant
            has_body,
            n == raw@.len(),
            i <= n,
            forall|j: int| 0 <= j < i ==> !crlf2_at(raw@, j),
        decreases n - i,
    {
        if bytes_occur_at(raw, i, &[13u8, 10u8, 13u8, 10u8]) {
            proof {
                assert(first_crlf2(raw@, i as int));
                lemma_first_unique(raw@, i as int, true);
            }
            let r = copy_range(raw, i + 4, n);
            assert(r@ =~= raw@.skip(i + 4));
            return r;
        }
        i = i + 1;
    }
    assert forall|j: int| !crlf2_at(raw@, j) by {
        if j >= i {
            assert(j + 4 > raw@.len());
        }
    }
    let mut i: usize = 0;
    while n >= 2 && i <= n - 2
        invariant
            has_body,
            n == raw@.len(),
            i <= n,
            forall|j: int| !crlf2_at(raw@, j),
            forall|j: int| 0 <= j < i ==> !lf2_at(raw@, j),
        decreases n - i,
    {
        if bytes_occur_at(raw, i, &[10u8, 10u8]) {
            proof {
                assert(first_lf2(raw@, i as int));
                lemma_first_unique(raw@, i as int, false);
                assert(!exists|k: int| first_crlf2(raw@, k));
            }
            let r = copy_range(raw, i + 2, n);
            assert(r@ =~= raw@.skip(i + 2));
            return r;
        }
        i = i + 1;
    }
    assert forall|j: int| !lf2_at(raw@, j) by {
        if j >= i {
            assert(j + 2 > raw@.len());
        }
    }
    assert(!exists|k: int| first_crlf2(raw@, k));
    assert(!exists|k: int| first_lf2(raw@, k));
    let r = Vec::new();
    assert(r@ =~= Seq::<u8>::empty());
    r
}

/// The name and the value of a header line: the text before and after its
/// first `:`, each trimmed; `None` for a line without `:`.
pub open spec fn spec_header_line(line: Seq<char>) -> Option<(Seq<char>, Seq<char>)> {
    if exists|p: int| first_at(line, ':', p) {
        let p = choose|p: int| first_at(line, ':', p);
        Some((trim(line.take(p)), trim(line.skip(p + 1))))
    } else {
        None
    }
}

/// The headers that the first `n` lines define, later names overwriting
/// earlier ones.
pub open spec fn spec_headers_upto(ls: Seq<Seq<char>>, n: int) -> Seq<(Seq<char>, Seq<char>)>
    decreases n,
{
    if n <= 0 {
        Seq::empty()
    } else {
        let h = spec_headers_upto(ls, n - 1);
        match spec_header_line(ls[n - 1]) {
            Some(kv) => header_insert(h, kv.0, kv.1),
            None => h,
        }
    }
}

/// `true` when line `i` is the first empty line.
pub open spec fn first_empty_line(ls: Seq<Seq<char>>, i: int) -> bool {
    &&& 0 <= i < ls.len()
    &&& ls[i].len() == 0
    &&& forall|j: int| 0 <= j < i ==> ls[j].len() > 0
}

/// Number of lines before the first empty line (all of them when none is empty).
pub open spec fn spec_header_end(ls: Seq<Seq<char>>) -> int {
    if exists|i: int| first_empty_line(ls, i) {
        choose|i: int| first_empty_line(ls, i)
    } else {
        ls.len() as int
    }
}

/// Index of the line after the first empty line, or 0 when there is none.
pub open spec fn spec_body_start(ls: Seq<Seq<char>>) -> int {
    if exists|i: int| first_empty_line(ls, i) {
        spec_header_end(ls) + 1
    } else {
        0
    }
}

proof fn lemma_first_empty_unique(ls: Seq<Seq<char>>, i: int)
    requires
        first_empty_line(ls, i),
    ensures
        spec_header_end(ls) == i,
{
    let c = choose|k: int| first_empty_line(ls, k);
    assert(first_empty_line(ls, c));
    if c < i {
        assert(ls[c].len() > 0);
    }
    if i < c {
        assert(ls[i].len() > 0);
    }
}

/// Parses HTTP headers from message lines (starting at line 0).  Returns the
/// headers and the index of the line after the first blank line (0 when no
/// blank line is found, which means there is no body).
pub fn parse_http_headers(ls: &Vec<Vec<char>>) -> (r: (Headers, usize))
    ensures
        r.0@ == spec_headers_upto(views(ls@), spec_header_end(views(ls@))),
        r.1 == spec_body_start(views(ls@)),
{
    let ghost vs = views(ls@);
    let mut headers = Headers::new();
    let mut i: usize = 0;
    while i < ls.len()
        invariant
            vs == views(ls@),
            i <= ls@.len(),
            forall|j: int| 0 <= j < i ==> vs[j].len() > 0,
            headers@ == spec_headers_upto(vs, i as int),
        decreases ls@.len() - i,
    {
        let line = &ls[i];
        assert(line@ == vs[i as int]);
        if line.len() == 0 {
            proof {
                assert(first_empty_line(vs, i as int));
                lemma_first_empty_unique(vs, i as int);
            }
            return (headers, i + 1);
        }
        match find_char_from(line, 0, ':') {
            Some(p) => {
                let key = trim_chars(&copy_range(line, 0, p));
                let value = trim_chars(&copy_range(line, p + 1, line.len()));
                proof {
                    assert(line@.skip(0) =~= line@);
                    let c = choose|q: int| first_at(line@, ':', q);
                    assert(first_at(line@, ':', c));
                    if c < p {
                        assert(line@[c] != ':');
                    }
                    if (p as int) < c {
                        assert(line@[p as int] != ':');
                    }
                    assert(line@.subrange(0, p as int) =~= line@.take(p as int));
                    assert(line@.subrange(p + 1, line@.len() as int) =~= line@.skip(p + 1));
                }
                headers.insert(string_from_chars(&key), string_from_chars(&value));
            },
            None => {
                proof {
                    assert(line@.skip(0) =~= line@);
                    assert forall|q: int| !first_at(line@, ':', q) by {
                        if 0 <= q < line@.len() {
                            assert(line@[q] != ':');
                        }
                    }
                }
            },
        }
        i = i + 1;
    }
    proof {
        assert forall|k: int| !first_empty_line(vs, k) by {
            if 0 <= k < vs.len() {
                assert(vs[k].len() > 0);
            }
        }
    }
    (headers, 0)
}

/// `"upgrade"`.
pub open spec fn upgrade_word() -> Seq<char> {
    seq!['u', 'p', 'g', 'r', 'a', 'd', 'e']
}

/// `websocket`.
pub open spec fn websocket_word() -> Seq<char> {
    seq!['w', 'e', 'b', 's', 'o', 'c', 'k', 'e', 't']
}

/// `connection`.
pub open spec fn connection_word() -> Seq<char> {
    seq!['c', 'o', 'n', 'n', 'e', 'c', 't', 'i', 'o', 'n']
}

/// `true` when a header whose lower-case name and value are `name` and
/// `value` is `upgrade: websocket`.
pub open spec fn is_websocket_header(name: Seq<char>, value: Seq<char>) -> bool {
    name == upgrade_word() && value == websocket_word()
}

/// `true` when a header whose lower-case name and value are `name` and
/// `value` is a `connection` header that mentions `upgrade`.
pub open spec fn is_connection_upgrade_header(name: Seq<char>, value: Seq<char>) -> bool {
    name == connection_word() && contains_seq(value, upgrade_word())
}

/// `true` when the headers hold `Upgrade: websocket` and a `Connection` header
/// whose value mentions `upgrade`, names and values compared in lower case.
pub open spec fn spec_is_websocket_upgrade(h: Seq<(Seq<char>, Seq<char>)>) -> bool {
    &&& exists|i: int|
        0 <= i < h.len() && is_websocket_header(spec_to_lowercase(h[i].0), spec_to_lowercase(h[i].1))
    &&& exists|i: int|
        0 <= i < h.len() && is_connection_upgrade_header(
            spec_to_lowercase(h[i].0),
            spec_to_lowercase(h[i].1),
        )
}

/// Whether a header, given by its lower-case name and value, is
/// `upgrade: websocket`.
pub fn websocket_header(lower_name: &[char], lower_value: &[char]) -> (r: bool)
    ensures
        r == is_websocket_header(lower_name@, lower_value@),
{
    chars_eq(lower_name, &['u', 'p', 'g', 'r', 'a', 'd', 'e']) && chars_eq(
        lower_value,
        &['w', 'e', 'b', 's', 'o', 'c', 'k', 'e', 't'],
    )
}

/// Whether a header, given by its lower-case name and value, is a
/// `connection` header whose value mentions `upgrade`.
pub fn connection_upgrade_header(lower_name: &[char], lower_value: &[char]) -> (r: bool)
    ensures
        r == is_connection_upgrade_header(lower_name@, lower_value@),
{
    chars_eq(lower_name, &['c', 'o', 'n', 'n', 'e', 'c', 't', 'i', 'o', 'n']) && chars_contain(
        lower_value,
        &['u', 'p', 'g', 'r', 'a', 'd', 'e'],
    )
}

/// Returns `true` if the headers indicate a WebSocket upgrade handshake.
pub fn is_websocket_upgrade(headers: &Headers) -> (r: bool)
    ensures
        r == spec_is_websocket_upgrade(headers@),
{
    let ghost h = headers@;
    let n = headers.entries.len();
    let mut up = false;
    let mut conn = false;
    let mut i: usize = 0;
    while i < n
        invariant
            n == headers.entries@.len(),
            h == headers@,
            i <= n,
            up == exists|j: int|
                0 <= j < i && is_websocket_header(spec_to_lowercase(h[j].0), spec_to_lowercase(h[j].1)),
            conn == exists|j: int|
                0 <= j < i && is_connection_upgrade_header(
                    spec_to_lowercase(h[j].0),
                    spec_to_lowercase(h[j].1),
                ),
        decreases n - i,
    {
        let k = to_lowercase(&str_chars(headers.entries[i].0.as_str()));
        let v = to_lowercase(&str_chars(headers.entries[i].1.as_str()));
        assert(h[i as int] == (headers.entries@[i as int].0@, headers.entries@[i as int].1@));
        if websocket_header(&k, &v) {
            up = true;
        }
        if connection_upgrade_header(&k, &v) {
            conn = true;
        }
        i = i + 1;
    }
    up && conn
}

/// `"..."`, the suffix of a truncated preview.
pub open spec fn ellipsis() -> Seq<char> {
    seq!['.', '.', '.']
}

/// The lossy text of `body` when it fits in `limit` bytes, else the lossy text
/// of its first `limit` bytes followed by `...`.
pub open spec fn spec_body_preview(body: Seq<u8>, limit: nat) -> Seq<char> {
    if body.len() <= limit {
        spec_utf8_lossy(body)
    } else {
        spec_utf8_lossy(body.take(limit as int)) + ellipsis()
    }
}

impl Capture {
    /// Returns a UTF-8 lossy representation of `body` truncated to `limit`
    /// bytes, with a `...` suffix when truncated.
    pub fn body_preview(body: &[u8], limit: usize) -> (r: String)
        ensures
            r@ == spec_body_preview(body@, limit as nat),
    {
        if body.len() <= limit {
            string_from_chars(&utf8_lossy(body))
        } else {
            let head = copy_range(body, 0, limit);
            assert(head@ =~= body@.take(limit as int));
            let mut text = utf8_lossy(&head);
            text.push('.');
            text.push('.');
            text.push('.');
            assert(text@ =~= spec_utf8_lossy(body@.take(limit as int)) + ellipsis());
            string_from_chars(&text)
        }
    }
}

/// The lines of a captured message: its lossy text split with `str::lines`.
pub open spec fn message_lines(raw: Seq<u8>) -> Seq<Seq<char>> {
    lines(spec_utf8_lossy(raw))
}

/// Method and target of a request message: the first two words of its first
/// line, when that line starts with a method token and has two words.
pub open spec fn spec_request_parts(raw: Seq<u8>) -> Option<(Seq<char>, Seq<char>)> {
    let ls = message_lines(raw);
    if ls.len() > 0 && spec_is_request_line(ls[0]) && words(ls[0]).len() >= 2 {
        Some((words(ls[0])[0], words(ls[0])[1]))
    } else {
        None
    }
}

/// Status code of a response message: the second word of a first line that
/// starts with `HTTP/` (and not with a method token), read as a `u16`.
pub open spec fn spec_response_status(raw: Seq<u8>) -> Option<nat> {
    let ls = message_lines(raw);
    if ls.len() > 0 && !spec_is_request_line(ls[0]) && spec_is_status_line(ls[0]) && words(
        ls[0],
    ).len() >= 2 {
        parse_unsigned(words(ls[0])[1], 65535)
    } else {
        None
    }
}

/// The headers of a captured message.
pub open spec fn spec_message_headers(raw: Seq<u8>) -> Seq<(Seq<char>, Seq<char>)> {
    let ls = message_lines(raw);
    spec_headers_upto(ls, spec_header_end(ls))
}

/// The body of a captured message: the bytes after the separator when the
/// lines hold anything after their first blank line (or have no blank line).
pub open spec fn spec_message_body(raw: Seq<u8>) -> Seq<u8> {
    let ls = message_lines(raw);
    if spec_body_start(ls) < ls.len() {
        spec_body_of(raw)
    } else {
        Seq::empty()
    }
}

/// An HTTP message recognised in captured bytes.
#[derive(Clone, Debug)]
pub enum ParsedHttp {
    Request { method: String, url: String, headers: Headers, body: Vec<u8> },
    Response { status: u16, headers: Headers, body: Vec<u8> },
}

/// Classifies `raw` as an HTTP request or response and splits it into its
/// parts; `None` for anything else, including a request line with fewer than
/// two words and a status line without a valid `u16` code.
pub fn parse_http_message(raw: &[u8]) -> (r: Option<ParsedHttp>)
    ensures
        match r {
            Some(ParsedHttp::Request { method, url, headers, body }) => {
                &&& spec_request_parts(raw@) == Some((method@, url@))
                &&& headers@ == spec_message_headers(raw@)
                &&& body@ == spec_message_body(raw@)
            },
            Some(ParsedHttp::Response { status, headers, body }) => {
                &&& spec_request_parts(raw@) is None
                &&& spec_response_status(raw@) == Some(status as nat)
                &&& headers@ == spec_message_headers(raw@)
                &&& body@ == spec_message_body(raw@)
            },
            None => spec_request_parts(raw@) is None && spec_response_status(raw@) is None,
        },
{
    let text = utf8_lossy(raw);
    let ls = split_lines(&text);
    let ghost vs = views(ls@);
    assert(vs == message_lines(raw@));
    if ls.len() == 0 {
        return None;
    }
    let first = &ls[0];
    assert(first@ == vs[0]);
    if is_http_request_line(first) {
        let parts = split_words(first);
        assert(views(parts@) == words(vs[0]));
        if parts.len() < 2 {
            return None;
        }
        assert(parts@[0]@ == words(vs[0])[0] && parts@[1]@ == words(vs[0])[1]);
        let (headers, body_start) = parse_http_headers(&ls);
        let body = extract_body_from_raw(raw, body_start < ls.len());
        let method = string_from_chars(&parts[0]);
        let url = string_from_chars(&parts[1]);
        return Some(ParsedHttp::Request { method, url, headers, body });
    }
    if is_http_status_line(first) {
        let parts = split_words(first);
        assert(views(parts@) == words(vs[0]));
        if parts.len() < 2 {
            return None;
        }
        assert(parts@[1]@ == words(vs[0])[1]);
        let status = match parse_unsigned_chars(&parts[1], 65535) {
            Some(v) => v as u16,
            None => {
                return None;
            },
        };
        let (headers, body_start) = parse_http_headers(&ls);
        let body = extract_body_from_raw(raw, body_start < ls.len());
        return Some(ParsedHttp::Response { status, headers, body });
    }
    None
}

// ── WebSocket frames ─────────────────────────────────────────────────────────

/// The 7-bit payload length of the second frame byte.
pub open spec fn spec_len7(b1: u8) -> nat {
    (b1 & 0x7Fu8) as nat
}

/// `true` when the mask bit of the second frame byte is set.
pub open spec fn spec_masked(b1: u8) -> bool {
    b1 & 0x80u8 != 0
}

/// Header length of a frame: two bytes, plus two or eight length bytes when
/// the 7-bit length is 126 or 127, plus four mask bytes when masked.
pub open spec fn spec_header_len(b1: u8) -> nat {
    2 + (if spec_len7(b1) == 126 {
        2nat
    } else if spec_len7(b1) == 127 {
        8nat
    } else {
        0nat
    }) + (if spec_masked(b1) {
        4nat
    } else {
        0nat
    })
}

/// Total length of a frame: its header and as many payload bytes as the 7-bit
/// length says (the extended length bytes are not read).
pub open spec fn spec_frame_len(b1: u8) -> nat {
    spec_header_len(b1) + spec_len7(b1)
}

/// `true` when `frame` holds two bytes and at least `spec_frame_len` bytes.
pub open spec fn spec_frame_complete(frame: Seq<u8>) -> bool {
    frame.len() >= 2 && frame.len() >= spec_frame_len(frame[1])
}

/// The payload of a complete frame, unmasked with its four-byte key when the
/// mask bit is set.
pub open spec fn spec_frame_payload(frame: Seq<u8>) -> Seq<u8> {
    let h = spec_header_len(frame[1]) as int;
    let n = spec_len7(frame[1]) as int;
    if spec_masked(frame[1]) {
        Seq::new(n as nat, |i: int| frame[h + i] ^ frame[h - 4 + i % 4])
    } else {
        frame.subrange(h, h + n)
    }
}

/// Parses the frame at the start of `frame`: its opcode and unmasked payload,
/// or `None` when the bytes do not yet hold the whole frame.
pub fn decode_websocket_frame(frame: &[u8]) -> (r: Option<(u8, Vec<u8>)>)
    ensures
        r is Some <==> spec_frame_complete(frame@),
        r matches Some((op, payload)) ==> op == frame@[0] & 0x0Fu8 && payload@
            == spec_frame_payload(frame@),
{
    if frame.len() < 2 {
        return None;
    }
    let b0 = frame[0];
    let b1 = frame[1];
    let opcode = b0 & 0x0F;
    let masked = (b1 & 0x80) != 0;
    let payload_len = (b1 & 0x7F) as usize;
    assert(b1 & 0x7Fu8 <= 127u8) by (bit_vector);
    let mut header_len: usize = 2;
    if payload_len == 126 {
        header_len = header_len + 2;
    } else if payload_len == 127 {
        header_len = header_len + 8;
    }
    if masked {
        header_len = header_len + 4;
    }
    let total_len = header_len + payload_len;
    assert(total_len == spec_frame_len(b1));
    if frame.len() < total_len {
        return None;
    }
    let n = frame.len();
    let mut payload: Vec<u8> = Vec::new();
    let mut i: usize = 0;
    while i < payload_len
        invariant
            n == frame@.len(),
            header_len + payload_len <= frame@.len(),
            masked ==> header_len >= 4,
            i <= payload_len,
            payload@.len() == i,
            forall|k: int|
                0 <= k < i ==> payload@[k] == (if masked {
                    frame@[header_len + k] ^ frame@[header_len - 4 + k % 4]
                } else {
                    frame@[header_len + k]
                }),
        decreases payload_len - i,
    {
        let b = if masked {
            frame[header_len + i] ^ frame[header_len - 4 + i % 4]
        } else {
            frame[header_len + i]
        };
        payload.push(b);
        i = i + 1;
    }
    proof {
        if masked {
            assert(payload@ =~= spec_frame_payload(frame@));
        } else {
            assert(payload@ =~= spec_frame_payload(frame@));
        }
    }
    Some((opcode, payload))
}


// ── Capture ──────────────────────────────────────────────────────────────────

/// `uuid::Uuid::new_v4`, as its hyphenated text.  Nothing is stated of the
/// result: it is random.
#[verifier::external_body]
pub(crate) fn new_id() -> (r: String) {
    uuid::Uuid::new_v4().to_string()
}

/// `"unknown"`, the id recorded when a response or frame cannot be matched.
pub open spec fn unknown_id() -> Seq<char> {
    seq!['u', 'n', 'k', 'n', 'o', 'w', 'n']
}

/// Whole microseconds in `d` nanoseconds, rounded toward zero.
pub open spec fn micros_in(d: int) -> int {
    if d >= 0 {
        d / 1000
    } else {
        -((-d) / 1000)
    }
}

/// Microseconds from `then` to `now` (both in nanoseconds), rounded toward
/// zero, or 0 when the difference does not fit in an `i64`.
pub open spec fn elapsed_us(now: i64, then: i64) -> i64 {
    if i64::MIN <= now - then <= i64::MAX {
        micros_in(now - then) as i64
    } else {
        0
    }
}

/// Whole microseconds in `d` nanoseconds, rounded toward zero.
pub fn micros_of_nanos(d: i64) -> (r: i64)
    ensures
        r == micros_in(d as int),
{
    if d >= 0 {
        d / 1000
    } else if d == i64::MIN {
        -9_223_372_036_854_775
    } else {
        -((-d) / 1000)
    }
}

/// What a captured request message is stored as.
pub open spec fn request_record(raw: Seq<u8>, tunnel: Seq<char>, id: Seq<char>, now: i64) -> RequestView {
    RequestView {
        id,
        timestamp: now,
        tunnel_name: tunnel,
        method: spec_request_parts(raw).unwrap().0,
        url: spec_request_parts(raw).unwrap().1,
        headers: spec_message_headers(raw),
        body: spec_message_body(raw),
        raw_request: raw,
        replayed: false,
    }
}

/// The request a response on a connection answers, and the time it took: the
/// oldest pending request of the connection when it is still stored, else
/// `"unknown"` and no time.
pub open spec fn response_origin(
    pending: Seq<(Seq<char>, Seq<char>)>,
    entries: Seq<ExchangeView>,
    conn: Seq<char>,
    now: i64,
) -> (Seq<char>, Option<i64>) {
    match next_pending(pending, conn) {
        Some(k) => match index_of_id(entries, pending[k].1) {
            Some(i) => (pending[k].1, Some(elapsed_us(now, entries[i].request.timestamp))),
            None => (unknown_id(), None),
        },
        None => (unknown_id(), None),
    }
}

/// What capturing the HTTP message `raw` does, with `id` as the id of a
/// request and `now` as the time, to a capture that was `old` and is now
/// `new`, and what it returns (`r`).  A request is stored (evicting the
/// oldest exchange when the store is full), queued for the responses of
/// `conn`, and recorded as the connection's upgrade request when its headers
/// ask for a WebSocket upgrade.  A response is attached to the oldest waiting
/// request of `conn`, which leaves the queue.  Anything else changes nothing.
pub open spec fn http_message_captured(
    old: Capture,
    new: Capture,
    tunnel: Seq<char>,
    conn: Seq<char>,
    raw: Seq<u8>,
    id: Seq<char>,
    now: i64,
    r: CaptureOutcome,
) -> bool {
    match spec_request_parts(raw) {
        Some(_) => {
            let rec = request_record(raw, tunnel, id, now);
            &&& r matches CaptureOutcome::Request { id: rid } && rid@ == id
            &&& new.storage.entries() == store_exchange_spec(
                old.storage.entries(),
                old.storage.capacity(),
                now,
                ExchangeView { request: rec, response: None },
            )
            &&& new.storage.pending_view() == old.storage.pending_view().push(
                (conn, id),
            )
            &&& new.websocket_upgrades@ == if spec_is_websocket_upgrade(
                rec.headers,
            ) {
                header_insert(old.websocket_upgrades@, conn, id)
            } else {
                old.websocket_upgrades@
            }
        },
        None => match spec_response_status(raw) {
            Some(status) => {
                let origin = response_origin(
                    old.storage.pending_view(),
                    old.storage.entries(),
                    conn,
                    now,
                );
                let resp = ResponseView {
                    request_id: origin.0,
                    timestamp: now,
                    status: status as u16,
                    headers: spec_message_headers(raw),
                    body: spec_message_body(raw),
                    raw_response: raw,
                    response_time_us: origin.1,
                };
                let mid = old.storage.entries();
                &&& new.websocket_upgrades == old.websocket_upgrades
                &&& new.storage.pending_view() == match next_pending(
                    old.storage.pending_view(),
                    conn,
                ) {
                    Some(k) => old.storage.pending_view().remove(k),
                    None => old.storage.pending_view(),
                }
                &&& match index_of_id(mid, origin.0) {
                    Some(i) => {
                        let e = ExchangeView { request: mid[i].request, response: Some(resp) };
                        &&& new.storage.entries() == mid.update(i, e)
                        &&& r matches CaptureOutcome::Response { status: st, exchange: Some(x) }
                            && st == status && x@ == e
                    },
                    None => {
                        &&& new.storage.entries() == mid
                        &&& r matches CaptureOutcome::Response { status: st, exchange: None }
                            && st == status
                    },
                }
            },
            None => {
                &&& r is Ignored
                &&& new.storage == old.storage
                &&& new.websocket_upgrades == old.websocket_upgrades
            },
        },
    }
}

/// What capturing the WebSocket frame `raw` does to the message store, with
/// `id` and `now` as the new message's id and time, for a capture that was
/// `old` and is now `new`, and what it returns (`r`).  A complete frame is
/// stored as a message (evicting the oldest when the store is full) holding
/// its unmasked payload, `Text` for opcode 1 and `Binary` for every other
/// opcode, and the upgrade request id of `conn` (`"unknown"` without one); a
/// copy is returned.  An incomplete frame stores nothing and gives `None`.
pub open spec fn frame_captured(
    old: Capture,
    new: Capture,
    tunnel: Seq<char>,
    conn: Seq<char>,
    dir: Seq<char>,
    raw: Seq<u8>,
    id: Seq<char>,
    now: i64,
    r: Option<StoredWebSocketMessage>,
) -> bool {
    if spec_frame_complete(raw) {
        let m = MessageView {
            id,
            timestamp: now,
            tunnel_name: tunnel,
            upgrade_request_id: match header_lookup(
                old.websocket_upgrades@,
                conn,
            ) {
                Some(u) => u,
                None => unknown_id(),
            },
            direction: dir,
            message_type: if raw[0] & 0x0Fu8 == 1 {
                WebSocketMessageType::Text
            } else {
                WebSocketMessageType::Binary
            },
            payload: spec_frame_payload(raw),
        };
        &&& r matches Some(x) && x@ == m
        &&& new.websocket_storage.entries() == store_message_spec(
            old.websocket_storage.entries(),
            old.websocket_storage.capacity(),
            now,
            m,
        )
    } else {
        r is None && new.websocket_storage == old.websocket_storage
    }
}

/// What happened to a captured HTTP message.
#[derive(Clone, Debug)]
pub enum CaptureOutcome {
    /// A request was stored under this id.
    Request { id: String },
    /// A response with this status was stored; the completed exchange when
    /// its request was found.
    Response { status: u16, exchange: Option<RequestExchange> },
    /// Not an HTTP request or response: nothing was stored.
    Ignored,
}

/// Parses and stores captured proxy traffic: HTTP requests with the
/// connection they came on, responses matched to the oldest waiting request
/// of their connection, and WebSocket frames linked to the upgrade request of
/// their connection.
#[derive(Clone, Debug)]
pub struct Capture {
    pub storage: RequestStorage,
    pub websocket_storage: WebSocketMessageStorage,
    pub log_level: LogLevel,
    /// Maximum body bytes to print when the level is `Full`.
    pub log_body_limit: usize,
    /// The upgrade request id of each connection that switched to WebSocket.
    pub websocket_upgrades: Headers,
}

impl Capture {
    /// Both stores are well formed.
    pub open spec fn wf(&self) -> bool {
        self.storage.wf() && self.websocket_storage.wf()
    }

    /// Creates a new `Capture`; `stdout_level` is read as by `LogLevel::from`.
    pub fn new(
        request_storage: RequestStorage,
        websocket_storage: WebSocketMessageStorage,
        stdout_level: &str,
        log_body_limit: usize,
    ) -> (r: Capture)
        ensures
            r.storage == request_storage,
            r.websocket_storage == websocket_storage,
            r.log_level == LogLevel::spec_from_name(stdout_level@),
            r.log_body_limit == log_body_limit,
            r.websocket_upgrades@ == Seq::<(Seq<char>, Seq<char>)>::empty(),
    {
        Capture {
            storage: request_storage,
            websocket_storage,
            log_level: LogLevel::from(stdout_level),
            log_body_limit,
            websocket_upgrades: Headers::new(),
        }
    }

    /// Classifies `raw_message` as an HTTP request or response and stores it,
    /// with `id` as the id of a request and `now` as the time.  A request is
    /// queued for the responses of `connection_id`, and recorded as the
    /// connection's upgrade request when its headers ask for a WebSocket
    /// upgrade.  A response is linked to the oldest waiting request of the
    /// connection.
    pub fn capture_raw_message_at(
        &mut self,
        tunnel_name: &str,
        connection_id: &str,
        raw_message: &[u8],
        id: String,
        now: i64,
    ) -> (r: CaptureOutcome)
        requires
            old(self).wf(),
        ensures
            final(self).wf(),
            final(self).websocket_storage == old(self).websocket_storage,
            final(self).log_level == old(self).log_level,
            final(self).log_body_limit == old(self).log_body_limit,
            final(self).storage.capacity() == old(self).storage.capacity(),
            http_message_captured(
                *old(self),
                *final(self),
                tunnel_name@,
                connection_id@,
                raw_message@,
                id@,
                now,
                r,
            ),
    {
        match parse_http_message(raw_message) {
            Some(ParsedHttp::Request { method, url, headers, body }) => {
                let upgrade = is_websocket_upgrade(&headers);
                let raw_copy = copy_range(raw_message, 0, raw_message.len());
                assert(raw_copy@ =~= raw_message@);
                let request = StoredRequest {
                    id: id.clone(),
                    timestamp: now,
                    tunnel_name: tunnel_name.to_string(),
                    method,
                    url,
                    headers,
                    body,
                    raw_request: raw_copy,
                    replayed: false,
                };
                if upgrade {
                    self.websocket_upgrades.insert(connection_id.to_string(), id.clone());
                }
                self.storage.store_request_with_connection_at(request, connection_id, now);
                CaptureOutcome::Request { id }
            },
            Some(ParsedHttp::Response { status, headers, body }) => {
                let raw_copy = copy_range(raw_message, 0, raw_message.len());
                assert(raw_copy@ =~= raw_message@);
                let (request_id, response_time_us) = match self.storage.get_next_pending_request_for_connection(connection_id) {
                    Some((rid, request_time)) => {
                        let elapsed = match now.checked_sub(request_time) {
                            Some(d) => micros_of_nanos(d),
                            None => 0,
                        };
                        (rid, Some(elapsed))
                    },
                    None => (string_from_chars(&['u', 'n', 'k', 'n', 'o', 'w', 'n']), None),
                };
                let response = StoredResponse {
                    request_id,
                    timestamp: now,
                    status,
                    headers,
                    body,
                    raw_response: raw_copy,
                    response_time_us,
                };
                let exchange = self.storage.store_response(response);
                CaptureOutcome::Response { status, exchange }
            },
            None => CaptureOutcome::Ignored,
        }
    }

    /// Classifies `raw_message` as an HTTP request or response and stores it
    /// as `capture_raw_message_at` does, with a fresh random id for a request
    /// and the current time: whatever id and time were drawn, the capture
    /// changed as `http_message_captured` says for them.  `direction` names
    /// the way the bytes travelled; it is not stored.
    pub fn capture_raw_message(
        &mut self,
        tunnel_name: &str,
        connection_id: &str,
        direction: &str,
        raw_message: &[u8],
    ) -> (r: CaptureOutcome)
        requires
            old(self).wf(),
        ensures
            final(self).wf(),
            final(self).websocket_storage == old(self).websocket_storage,
            final(self).log_level == old(self).log_level,
            final(self).log_body_limit == old(self).log_body_limit,
            final(self).storage.capacity() == old(self).storage.capacity(),
            exists|id: Seq<char>, now: i64|
                http_message_captured(
                    *old(self),
                    *final(self),
                    tunnel_name@,
                    connection_id@,
                    raw_message@,
                    id,
                    now,
                    r,
                ),
    {
        let id = new_id();
        let now = current_time();
        let ghost gid = id@;
        let r = self.capture_raw_message_at(tunnel_name, connection_id, raw_message, id, now);
        assert(http_message_captured(
            *old(self),
            *self,
            tunnel_name@,
            connection_id@,
            raw_message@,
            gid,
            now,
            r,
        ));
        r
    }

    /// Parses the WebSocket frame `raw_frame`, unmasks its payload and stores
    /// it with `id` and `now`, linked to the upgrade request of
    /// `connection_id` (`"unknown"` when there is none).  Opcode 1 is text,
    /// every other opcode binary.  Returns a copy of the stored message;
    /// `None`, with nothing stored, when the bytes do not hold a whole frame.
    pub fn capture_websocket_message_raw_at(
        &mut self,
        tunnel_name: &str,
        connection_id: &str,
        direction: &str,
        raw_frame: &[u8],
        id: String,
        now: i64,
    ) -> (r: Option<StoredWebSocketMessage>)
        requires
            old(self).wf(),
        ensures
            final(self).wf(),
            final(self).storage == old(self).storage,
            final(self).websocket_upgrades == old(self).websocket_upgrades,
            final(self).websocket_storage.capacity() == old(self).websocket_storage.capacity(),
            frame_captured(
                *old(self),
                *final(self),
                tunnel_name@,
                connection_id@,
                direction@,
                raw_frame@,
                id@,
                now,
                r,
            ),
    {
        let (opcode, payload) = match decode_websocket_frame(raw_frame) {
            Some(x) => x,
            None => {
                return None;
            },
        };
        let message_type = if opcode == 1 {
            WebSocketMessageType::Text
        } else {
            WebSocketMessageType::Binary
        };
        let upgrade_request_id = match self.websocket_upgrades.get(connection_id) {
            Some(u) => u.clone(),
            None => string_from_chars(&['u', 'n', 'k', 'n', 'o', 'w', 'n']),
        };
        let message = StoredWebSocketMessage {
            id,
            timestamp: now,
            tunnel_name: tunnel_name.to_string(),
            upgrade_request_id,
            direction: direction.to_string(),
            message_type,
            payload,
        };
        let copy = message.duplicate();
        self.websocket_storage.store_message_at(message, now);
        Some(copy)
    }

    /// Parses and stores the WebSocket frame `raw_frame` as
    /// `capture_websocket_message_raw_at` does, with a fresh random id and the
    /// current time: whatever id and time were drawn, the message store
    /// changed as `frame_captured` says for them.
    pub fn capture_websocket_message_raw(
        &mut self,
        tunnel_name: &str,
        connection_id: &str,
        direction: &str,
        raw_frame: &[u8],
    ) -> (r: Option<StoredWebSocketMessage>)
        requires
            old(self).wf(),
        ensures
            final(self).wf(),
            final(self).storage == old(self).storage,
            final(self).websocket_upgrades == old(self).websocket_upgrades,
            final(self).websocket_storage.capacity() == old(self).websocket_storage.capacity(),
            r is Some <==> spec_frame_complete(raw_frame@),
            exists|id: Seq<char>, now: i64|
                frame_captured(
                    *old(self),
                    *final(self),
                    tunnel_name@,
                    connection_id@,
                    direction@,
                    raw_frame@,
                    id,
                    now,
                    r,
                ),
    {
        let id = new_id();
        let now = current_time();
        let ghost gid = id@;
        let r = self.capture_websocket_message_raw_at(tunnel_name, connection_id, direction, raw_frame, id, now);
        assert(frame_captured(
            *old(self),
            *self,
            tunnel_name@,
            connection_id@,
            direction@,
            raw_frame@,
            gid,
            now,
            r,
        ));
        r
    }
}

/// A frame is linked to the upgrade request of its connection: when a
/// request that asks for a WebSocket upgrade was captured on connection
/// `conn` with id `id`, a complete frame captured next on `conn` is stored
/// with `id` as its upgrade request id.  A complete frame on a connection
/// with no recorded upgrade request is stored with `"unknown"`.
pub proof fn lemma_frame_links_upgrade_request(
    c0: Capture,
    c1: Capture,
    c2: Capture,
    tunnel: Seq<char>,
    conn: Seq<char>,
    raw: Seq<u8>,
    id: Seq<char>,
    now: i64,
    r: CaptureOutcome,
    frame_tunnel: Seq<char>,
    dir: Seq<char>,
    frame: Seq<u8>,
    frame_id: Seq<char>,
    frame_now: i64,
    stored: Option<StoredWebSocketMessage>,
)
    requires
        http_message_captured(c0, c1, tunnel, conn, raw, id, now, r),
        spec_request_parts(raw) is Some,
        spec_is_websocket_upgrade(request_record(raw, tunnel, id, now).headers),
        frame_captured(c1, c2, frame_tunnel, conn, dir, frame, frame_id, frame_now, stored),
        spec_frame_complete(frame),
    ensures
        stored matches Some(m) && m@.upgrade_request_id == id,
{
    lemma_header_insert_then_get(c0.websocket_upgrades@, conn, id, conn);
}

/// A complete frame on a connection with no recorded upgrade request is
/// stored with `"unknown"` as its upgrade request id.
pub proof fn lemma_frame_without_upgrade_is_unknown(
    c1: Capture,
    c2: Capture,
    tunnel: Seq<char>,
    conn: Seq<char>,
    dir: Seq<char>,
    frame: Seq<u8>,
    frame_id: Seq<char>,
    frame_now: i64,
    stored: Option<StoredWebSocketMessage>,
)
    requires
        header_lookup(c1.websocket_upgrades@, conn) is None,
        frame_captured(c1, c2, tunnel, conn, dir, frame, frame_id, frame_now, stored),
        spec_frame_complete(frame),
    ensures
        stored matches Some(m) && m@.upgrade_request_id == unknown_id(),
{
}

} // verus!
