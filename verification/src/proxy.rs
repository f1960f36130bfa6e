//! The capture side channel of the proxy: a state machine that watches the
//! bytes flowing through a connection and cuts out HTTP messages and WebSocket
//! frames, keeping at most the configured number of body bytes.
use vstd::prelude::*;

use crate::capture::{spec_is_request_line, spec_is_status_line, is_http_request_line, is_http_status_line, crlf2_at, spec_frame_len, spec_len7, spec_masked, spec_header_len, upgrade_word};
use crate::text::{
    bytes_occur_at, chars_contain, chars_eq, chars_start_with, contains_seq, copy_range,
    find_char_from, first_at, lines, occurs_at, parse_unsigned, parse_unsigned_chars,
    spec_to_lowercase, spec_utf8_lossy, split_lines, to_lowercase, trim, trim_chars, utf8_lossy,
    views,
};

verus! {

/// The first line of a text, or the empty line when it has none.
pub open spec fn first_line(t: Seq<char>) -> Seq<char> {
    if lines(t).len() > 0 {
        lines(t)[0]
    } else {
        Seq::empty()
    }
}

/// `true` when the first line of the lossy text of `buf` is a request or a
/// status line.
pub open spec fn spec_starts_with_http(buf: Seq<u8>) -> bool {
    let l = first_line(spec_utf8_lossy(buf));
    spec_is_request_line(l) || spec_is_status_line(l)
}

/// Byte prefixes that open an HTTP message: the method tokens followed by a
/// space, and `HTTP/`.
pub open spec fn http_start_prefixes() -> Seq<Seq<u8>> {
    seq![
        seq![71u8, 69, 84, 32],
        seq![80u8, 79, 83, 84, 32],
        seq![80u8, 85, 84, 32],
        seq![68u8, 69, 76, 69, 84, 69, 32],
        seq![72u8, 69, 65, 68, 32],
        seq![79u8, 80, 84, 73, 79, 78, 83, 32],
        seq![80u8, 65, 84, 67, 72, 32],
        seq![72u8, 84, 84, 80, 47],
    ]
}

/// `true` when an HTTP message could start at `i`.
pub open spec fn http_start_at(buf: Seq<u8>, i: int) -> bool {
    exists|k: int| 0 <= k < http_start_prefixes().len() && occurs_at(buf, http_start_prefixes()[k], i)
}

/// `true` when `i` is the first position where an HTTP message could start.
pub open spec fn first_http_start(buf: Seq<u8>, i: int) -> bool {
    0 <= i < buf.len() && http_start_at(buf, i) && forall|j: int|
        0 <= j < i ==> !http_start_at(buf, j)
}

/// The first position where an HTTP message could start.
pub open spec fn spec_find_http_start(buf: Seq<u8>) -> Option<int> {
    if exists|i: int| first_http_start(buf, i) {
        Some(choose|i: int| first_http_start(buf, i))
    } else {
        None
    }
}

/// Returns `true` if `buf` starts with an HTTP method token or `HTTP/`.
pub fn starts_with_http(buf: &[u8]) -> (r: bool)
    ensures
        r == spec_starts_with_http(buf@),
{
    let text = utf8_lossy(buf);
    let ls = split_lines(&text);
    if ls.len() == 0 {
        let empty: Vec<char> = Vec::new();
        assert(first_line(spec_utf8_lossy(buf@)) =~= empty@);
        is_http_request_line(&empty) || is_http_status_line(&empty)
    } else {
        assert(ls@[0]@ == first_line(spec_utf8_lossy(buf@)));
        is_http_request_line(&ls[0]) || is_http_status_line(&ls[0])
    }
}

/// `true` when one of the start prefixes occurs at `i`.
fn http_start_at_exec(buf: &[u8], i: usize) -> (r: bool)
    ensures
        r == http_start_at(buf@, i as int),
{
    let r = bytes_occur_at(buf, i, &[71u8, 69, 84, 32]) || bytes_occur_at(buf, i, &[80u8, 79, 83, 84, 32])
        || bytes_occur_at(buf, i, &[80u8, 85, 84, 32]) || bytes_occur_at(
        buf,
        i,
        &[68u8, 69, 76, 69, 84, 69, 32],
    ) || bytes_occur_at(buf, i, &[72u8, 69, 65, 68, 32]) || bytes_occur_at(
        buf,
        i,
        &[79u8, 80, 84, 73, 79, 78, 83, 32],
    ) || bytes_occur_at(buf, i, &[80u8, 65, 84, 67, 72, 32]) || bytes_occur_at(
        buf,
        i,
        &[72u8, 84, 84, 80, 47],
    );
    proof {
        let ps = http_start_prefixes();
        if r {
            if occurs_at(buf@, seq![71u8, 69, 84, 32], i as int) {
                assert(occurs_at(buf@, ps[0], i as int));
            } else if occurs_at(buf@, seq![80u8, 79, 83, 84, 32], i as int) {
                assert(occurs_at(buf@, ps[1], i as int));
            } else if occurs_at(buf@, seq![80u8, 85, 84, 32], i as int) {
                assert(occurs_at(buf@, ps[2], i as int));
            } else if occurs_at(buf@, seq![68u8, 69, 76, 69, 84, 69, 32], i as int) {
                assert(occurs_at(buf@, ps[3], i as int));
            } else if occurs_at(buf@, seq![72u8, 69, 65, 68, 32], i as int) {
                assert(occurs_at(buf@, ps[4], i as int));
            } else if occurs_at(buf@, seq![79u8, 80, 84, 73, 79, 78, 83, 32], i as int) {
                assert(occurs_at(buf@, ps[5], i as int));
            } else if occurs_at(buf@, seq![80u8, 65, 84, 67, 72, 32], i as int) {
                assert(occurs_at(buf@, ps[6], i as int));
            } else {
                assert(occurs_at(buf@, ps[7], i as int));
            }
        } else {
            assert forall|k: int| 0 <= k < ps.len() implies !occurs_at(buf@, ps[k], i as int) by {
                assert(k == 0 || k == 1 || k == 2 || k == 3 || k == 4 || k == 5 || k == 6 || k
                    == 7);
            }
        }
    }
    r
}

/// Scans `buf` for the first byte position where an HTTP request line or
/// response line starts.  Returns `None` when no such position exists.
pub fn find_http_start(buf: &[u8]) -> (r: Option<usize>)
    ensures
        match spec_find_http_start(buf@) {
            Some(i) => r == Some(i as usize),
            None => r is None,
        },
        r matches Some(p) ==> first_http_start(buf@, p as int),
{
    let mut i: usize = 0;
    while i < buf.len()
        invariant
            i <= buf@.len(),
            forall|j: int| 0 <= j < i ==> !http_start_at(buf@, j),
        decreases buf@.len() - i,
    {
        if http_start_at_exec(buf, i) {
            proof {
                assert(first_http_start(buf@, i as int));
                let c = choose|k: int| first_http_start(buf@, k);
                assert(first_http_start(buf@, c));
                if c < i {
                    assert(!http_start_at(buf@, c));
                }
                if (i as int) < c {
                    assert(!http_start_at(buf@, i as int));
                }
            }
            return Some(i);
        }
        i = i + 1;
    }
    None
}

/// `"upgrade:"`.
pub open spec fn upgrade_colon() -> Seq<char> {
    seq!['u', 'p', 'g', 'r', 'a', 'd', 'e', ':']
}

/// `"connection:"`.
pub open spec fn connection_colon() -> Seq<char> {
    seq!['c', 'o', 'n', 'n', 'e', 'c', 't', 'i', 'o', 'n', ':']
}

/// `"websocket"`.
pub open spec fn websocket_word() -> Seq<char> {
    seq!['w', 'e', 'b', 's', 'o', 'c', 'k', 'e', 't']
}

/// `true` when some line of the lower-cased header text starts with
/// `upgrade:` and mentions `websocket`, and some line starts with
/// `connection:` and mentions `upgrade`.
pub open spec fn spec_upgrade_headers(headers: Seq<u8>) -> bool {
    let ls = lines(spec_utf8_lossy(headers));
    &&& exists|i: int|
        0 <= i < ls.len() && upgrade_colon().is_prefix_of(spec_to_lowercase(ls[i])) && contains_seq(
            spec_to_lowercase(ls[i]),
            websocket_word(),
        )
    &&& exists|i: int|
        0 <= i < ls.len() && connection_colon().is_prefix_of(spec_to_lowercase(ls[i]))
            && contains_seq(spec_to_lowercase(ls[i]), upgrade_word())
}

/// Returns `true` if `headers` contain both `Upgrade: websocket` and
/// `Connection: … upgrade …` (case-insensitive), indicating a WebSocket
/// upgrade request.
pub fn is_websocket_upgrade_headers(headers: &[u8]) -> (r: bool)
    ensures
        r == spec_upgrade_headers(headers@),
{
    let text = utf8_lossy(headers);
    let ls = split_lines(&text);
    let ghost vs = views(ls@);
    let mut up = false;
    let mut conn = false;
    let mut i: usize = 0;
    while i < ls.len()
        invariant
            vs == views(ls@),
            vs == lines(spec_utf8_lossy(headers@)),
            i <= ls@.len(),
            up == exists|j: int|
                0 <= j < i && upgrade_colon().is_prefix_of(spec_to_lowercase(vs[j]))
                    && contains_seq(spec_to_lowercase(vs[j]), websocket_word()),
            conn == exists|j: int|
                0 <= j < i && connection_colon().is_prefix_of(spec_to_lowercase(vs[j]))
                    && contains_seq(spec_to_lowercase(vs[j]), upgrade_word()),
        decreases ls@.len() - i,
    {
        let lower = to_lowercase(&ls[i]);
        assert(ls@[i as int]@ == vs[i as int]);
        if chars_start_with(&lower, &['u', 'p', 'g', 'r', 'a', 'd', 'e', ':']) && chars_contain(
            &lower,
            &['w', 'e', 'b', 's', 'o', 'c', 'k', 'e', 't'],
        ) {
            up = true;
        }
        if chars_start_with(&lower, &['c', 'o', 'n', 'n', 'e', 'c', 't', 'i', 'o', 'n', ':'])
            && chars_contain(&lower, &['u', 'p', 'g', 'r', 'a', 'd', 'e']) {
            conn = true;
        }
        i = i + 1;
    }
    up && conn
}

/// The second space-separated field of `line` (`str::split(' ').nth(1)`):
/// the text between the first space and the next one, or the end.
pub open spec fn spec_second_field(line: Seq<char>) -> Option<Seq<char>> {
    if exists|p: int| first_at(line, ' ', p) {
        let p = choose|p: int| first_at(line, ' ', p);
        let rest = line.skip(p + 1);
        if exists|q: int| first_at(rest, ' ', q) {
            Some(rest.take(choose|q: int| first_at(rest, ' ', q)))
        } else {
            Some(rest)
        }
    } else {
        None
    }
}

/// `true` when the first line of the header text has `101` as its second
/// space-separated field.
pub open spec fn spec_is_101(headers: Seq<u8>) -> bool {
    let ls = lines(spec_utf8_lossy(headers));
    ls.len() > 0 && spec_second_field(ls[0]) == Some(seq!['1', '0', '1'])
}

proof fn lemma_first_char_unique(s: Seq<char>, c: char, i: int)
    requires
        first_at(s, c, i),
    ensures
        (choose|k: int| first_at(s, c, k)) == i,
{
    let k = choose|k: int| first_at(s, c, k);
    assert(first_at(s, c, k));
    if k < i {
        assert(s[k] != c);
    }
    if i < k {
        assert(s[i] != c);
    }
}

/// Returns `true` if `headers` is an HTTP 101 Switching Protocols response.
pub fn is_101_switching_protocols(headers: &[u8]) -> (r: bool)
    ensures
        r == spec_is_101(headers@),
{
    let text = utf8_lossy(headers);
    let ls = split_lines(&text);
    if ls.len() == 0 {
        return false;
    }
    let line = &ls[0];
    assert(line@ == lines(spec_utf8_lossy(headers@))[0]);
    assert(line@.skip(0) =~= line@);
    let p = match find_char_from(line, 0, ' ') {
        Some(p) => p,
        None => {
            assert forall|k: int| !first_at(line@, ' ', k) by {
                if 0 <= k < line@.len() {
                    assert(line@[k] != ' ');
                }
            }
            return false;
        },
    };
    proof {
        lemma_first_char_unique(line@, ' ', p as int);
    }
    let n = line.len();
    let ghost rest = line@.skip(p + 1);
    let end = match find_char_from(line, p + 1, ' ') {
        Some(q) => {
            proof {
                assert(first_at(rest, ' ', q - (p + 1)));
                lemma_first_char_unique(rest, ' ', q - (p + 1));
                assert(rest.take(q - (p + 1)) =~= line@.subrange(p + 1, q as int));
            }
            q
        },
        None => {
            proof {
                assert forall|k: int| !first_at(rest, ' ', k) by {
                    if 0 <= k < rest.len() {
                        assert(rest[k] == line@[p + 1 + k]);
                    }
                }
                assert(rest =~= line@.subrange(p + 1, line@.len() as int));
            }
            line.len()
        },
    };
    let field = copy_range(line, p + 1, end);
    chars_eq(&field, &['1', '0', '1'])
}

/// The opcodes a frame may carry: continuation, text, binary, close, ping, pong.
pub open spec fn valid_opcode(op: u8) -> bool {
    op == 0 || op == 1 || op == 2 || op == 8 || op == 9 || op == 10
}

/// Length of the complete frame at the start of `buffer`, if it holds one
/// with a known opcode.
pub open spec fn spec_frame_at_start(buffer: Seq<u8>) -> Option<nat> {
    if buffer.len() >= 2 && valid_opcode(buffer[0] & 0x0Fu8) && buffer.len() >= spec_frame_len(
        buffer[1],
    ) {
        Some(spec_frame_len(buffer[1]))
    } else {
        None
    }
}

/// Cuts the complete frame at the start of `buffer` out of it: the frame bytes
/// and their count.  `None` when the buffer is too short or the opcode is not
/// one of continuation, text, binary, close, ping or pong.
pub fn try_extract_websocket_frame(buffer: &[u8]) -> (r: Option<(Vec<u8>, usize)>)
    ensures
        match spec_frame_at_start(buffer@) {
            Some(n) => r matches Some((frame, consumed)) && consumed == n && frame@
                == buffer@.take(n as int),
            None => r is None,
        },
{
    if buffer.len() < 2 {
        return None;
    }
    let first_byte = buffer[0];
    let second_byte = buffer[1];
    let opcode = first_byte & 0x0F;
    let masked = (second_byte & 0x80) != 0;
    if !(opcode == 0 || opcode == 1 || opcode == 2 || opcode == 8 || opcode == 9 || opcode == 10) {
        return None;
    }
    let payload_len = (second_byte & 0x7F) as usize;
    assert(second_byte & 0x7Fu8 <= 127u8) by (bit_vector);
    let mut header_len: usize = 2;
    if payload_len == 126 {
        header_len = header_len + 2;
    } else if payload_len == 127 {
        header_len = header_len + 8;
    }
    if masked {
        header_len = header_len + 4;
    }
    let total_len = header_len + payload_len;
    assert(total_len == spec_frame_len(second_byte));
    if buffer.len() >= total_len {
        let frame = copy_range(buffer, 0, total_len);
        assert(frame@ =~= buffer@.take(total_len as int));
        return Some((frame, total_len));
    }
    None
}

/// `"content-length:"`.
pub open spec fn content_length_colon() -> Seq<char> {
    seq!['c', 'o', 'n', 't', 'e', 'n', 't', '-', 'l', 'e', 'n', 'g', 't', 'h', ':']
}

/// What a header line `l` whose lower-case form is `lower` declares: `None`
/// when it is no length line (`lower` does not start with `content-length:`,
/// or `l` holds no `:`), else the text after the first `:` of `l`, trimmed and
/// read as a `usize` (`None` inside when that fails).
pub open spec fn declared_length(l: Seq<char>, lower: Seq<char>) -> Option<Option<nat>> {
    if content_length_colon().is_prefix_of(lower) && exists|p: int| first_at(l, ':', p) {
        let p = choose|p: int| first_at(l, ':', p);
        Some(parse_unsigned(trim(l.skip(p + 1)), usize::MAX as nat))
    } else {
        None
    }
}

/// `true` when a line declares the content length.
pub open spec fn is_length_line(l: Seq<char>) -> bool {
    declared_length(l, spec_to_lowercase(l)) is Some
}

/// `true` when line `i` is the first one declaring the content length.
pub open spec fn first_length_line(ls: Seq<Seq<char>>, i: int) -> bool {
    0 <= i < ls.len() && is_length_line(ls[i]) && forall|j: int| 0 <= j < i ==> !is_length_line(ls[j])
}

/// The declared content length: what the first length line declares.
pub open spec fn spec_content_length(data: Seq<u8>) -> Option<nat> {
    let ls = lines(spec_utf8_lossy(data));
    if exists|i: int| first_length_line(ls, i) {
        let l = ls[choose|i: int| first_length_line(ls, i)];
        declared_length(l, spec_to_lowercase(l))->0
    } else {
        None
    }
}

/// What the header line `line`, whose lower-case form is `lower`, declares
/// (see `declared_length`).
pub fn content_length_in_line(line: &[char], lower: &[char]) -> (r: Option<Option<usize>>)
    ensures
        match declared_length(line@, lower@) {
            None => r is None,
            Some(None) => r == Some(None::<usize>),
            Some(Some(n)) => r == Some(Some(n as usize)),
        },
{
    if !chars_start_with(
        lower,
        &['c', 'o', 'n', 't', 'e', 'n', 't', '-', 'l', 'e', 'n', 'g', 't', 'h', ':'],
    ) {
        return None;
    }
    assert(line@.skip(0) =~= line@);
    match find_char_from(line, 0, ':') {
        Some(p) => {
            let n = line.len();
            proof {
                lemma_first_char_unique(line@, ':', p as int);
            }
            let value = trim_chars(&copy_range(line, p + 1, line.len()));
            assert(line@.subrange(p + 1, line@.len() as int) =~= line@.skip(p + 1));
            let v = parse_unsigned_chars(&value, usize::MAX as u64);
            match v {
                Some(n) => Some(Some(n as usize)),
                None => Some(None),
            }
        },
        None => {
            assert forall|k: int| !first_at(line@, ':', k) by {
                if 0 <= k < line@.len() {
                    assert(line@[k] != ':');
                }
            }
            None
        },
    }
}

/// Reads the `Content-Length` header of an HTTP header block.
pub fn extract_content_length(data: &[u8]) -> (r: Option<usize>)
    ensures
        match spec_content_length(data@) {
            Some(n) => r == Some(n as usize),
            None => r is None,
        },
{
    let text = utf8_lossy(data);
    let ls = split_lines(&text);
    let ghost vs = views(ls@);
    let mut i: usize = 0;
    while i < ls.len()
        invariant
            vs == views(ls@),
            vs == lines(spec_utf8_lossy(data@)),
            i <= ls@.len(),
            forall|j: int| 0 <= j < i ==> !is_length_line(vs[j]),
        decreases ls@.len() - i,
    {
        let line = &ls[i];
        assert(line@ == vs[i as int]);
        let lower = to_lowercase(line);
        match content_length_in_line(line, &lower) {
            Some(v) => {
                proof {
                    assert(first_length_line(vs, i as int));
                    let c = choose|k: int| first_length_line(vs, k);
                    assert(first_length_line(vs, c));
                    if c < i {
                        assert(!is_length_line(vs[c]));
                    }
                    if (i as int) < c {
                        assert(!is_length_line(vs[i as int]));
                    }
                }
                return v;
            },
            None => {},
        }
        i = i + 1;
    }
    None
}

// ── The capture state machine ───────────────────────────────────────────────

/// Where the capture state machine stands.
#[derive(Debug, Clone, Copy, PartialEq, Eq, Structural)]
pub enum TeeReaderState {
    /// Scanning the accumulation buffer for the HTTP header terminator
    /// (`\r\n\r\n`).  `scan_pos` is the earliest buffer index not yet scanned,
    /// so each read resumes where the last one left off.
    FindingHeaders { scan_pos: usize },
    /// HTTP headers have been parsed.  Accumulating body bytes until
    /// `capture_limit` bytes are available; then the message is captured.
    CollectingBody {
        /// Offset into the buffer where the body begins.
        header_end: usize,
        /// Declared `Content-Length` value (0 if absent).
        content_length: usize,
        /// `min(content_length, max_body_size)`: the body bytes to capture.
        capture_limit: usize,
    },
    /// The message has been captured; its body extends beyond
    /// `max_body_size`, and the uncaptured tail is counted down without being
    /// buffered.
    DrainBody { bytes_remaining: usize },
}

/// What a captured chunk holds.
#[derive(Debug, Clone, Copy, PartialEq, Eq, Structural)]
pub enum CapturedKind {
    Http,
    WebSocket,
}

/// A piece of traffic cut out for capture: an HTTP message (headers plus at
/// most `max_body_size` body bytes) or a whole WebSocket frame.
#[derive(Clone, Debug)]
pub struct CapturedChunk {
    pub kind: CapturedKind,
    pub bytes: Vec<u8>,
}

impl View for CapturedChunk {
    type V = (CapturedKind, Seq<u8>);

    open spec fn view(&self) -> (CapturedKind, Seq<u8>) {
        (self.kind, self.bytes@)
    }
}

/// The views of a list of chunks.
pub open spec fn chunk_views(v: Seq<CapturedChunk>) -> Seq<(CapturedKind, Seq<u8>)> {
    v.map_values(|c: CapturedChunk| c@)
}

/// The abstract state of the machine: buffered bytes, state and upgrade flag.
pub struct TeeModel {
    pub buf: Seq<u8>,
    pub state: TeeReaderState,
    pub upgraded: bool,
}

/// The shape the machine keeps between steps: a scan position within the
/// buffer; a buffered header block that ends with `\r\n\r\n`, with a capture
/// limit of `min(length, max)`; an empty buffer with bytes left while
/// draining.
pub open spec fn model_inv(max: nat, m: TeeModel) -> bool {
    match m.state {
        TeeReaderState::FindingHeaders { scan_pos } => scan_pos <= m.buf.len(),
        TeeReaderState::CollectingBody { header_end, content_length, capture_limit } => {
            &&& 4 <= header_end <= m.buf.len()
            &&& crlf2_at(m.buf, header_end - 4)
            &&& capture_limit == if content_length < max {
                content_length as nat
            } else {
                max
            }
        },
        TeeReaderState::DrainBody { bytes_remaining } => bytes_remaining >= 1 && m.buf.len() == 0,
    }
}

/// `n - 3`, or 0 when `n < 3`.
pub open spec fn back3(n: int) -> usize {
    if n >= 3 {
        (n - 3) as usize
    } else {
        0
    }
}

/// `true` when `p` is the first position at or after `from` where `\r\n\r\n`
/// starts.
pub open spec fn first_crlf2_from(b: Seq<u8>, from: int, p: int) -> bool {
    from <= p && crlf2_at(b, p) && forall|j: int| from <= j < p ==> !crlf2_at(b, j)
}

/// The first position at or after `from` where `\r\n\r\n` starts.
pub open spec fn spec_find_crlf2_from(b: Seq<u8>, from: int) -> Option<int> {
    if exists|p: int| first_crlf2_from(b, from, p) {
        Some(choose|p: int| first_crlf2_from(b, from, p))
    } else {
        None
    }
}

/// Splits the complete frames off the front of `b`: the frames, in order, and
/// the bytes left after them.
pub open spec fn spec_drain_frames(b: Seq<u8>) -> (Seq<Seq<u8>>, Seq<u8>)
    decreases b.len(),
{
    match spec_frame_at_start(b) {
        Some(n) => {
            let r = spec_drain_frames(b.skip(n as int));
            (seq![b.take(n as int)] + r.0, r.1)
        },
        None => (Seq::empty(), b),
    }
}

/// WebSocket chunks for a list of frames.
pub open spec fn ws_chunks(fs: Seq<Seq<u8>>) -> Seq<(CapturedKind, Seq<u8>)> {
    fs.map_values(|f: Seq<u8>| (CapturedKind::WebSocket, f))
}

/// The states from which the machine's steps make progress: a collected
/// header block is non-empty and buffered, a drain has bytes left.
pub open spec fn runnable(m: TeeModel) -> bool {
    match m.state {
        TeeReaderState::FindingHeaders { .. } => true,
        TeeReaderState::CollectingBody { header_end, .. } => 1 <= header_end <= m.buf.len(),
        TeeReaderState::DrainBody { bytes_remaining } => bytes_remaining >= 1,
    }
}

/// Bytes still to be examined, counted so that every step of the machine
/// lowers it.
pub open spec fn measure(m: TeeModel, rem: Seq<u8>) -> nat {
    2 * (m.buf.len() + rem.len()) + match m.state {
        TeeReaderState::CollectingBody { .. } => 0nat,
        _ => 1nat,
    }
}

/// What the machine does with the bytes `rem` that were just read, from state
/// `m`: the state it stops in and the chunks it captures, in order.
///
/// * Finding headers: the bytes join the buffer.  After a WebSocket upgrade
///   every complete frame is cut off the front.  Before it, a buffer that does
///   not start like an HTTP message is advanced to the first place where one
///   could start (and kept whole when there is none); then `\r\n\r\n` is
///   searched from three bytes before the scan position.  When found, the
///   declared length (0 when absent) and `min(length, max)` are recorded.
/// * Collecting the body: a message without a length is captured as its
///   header block, which may switch the connection to WebSocket frames; else
///   once `min(length, max)` body bytes are buffered the headers and those
///   bytes are captured, and the rest of the message is dropped from the
///   buffer or, when not all of it has arrived, counted down.
/// * Draining: incoming bytes are counted off the rest of the message.
pub open spec fn spec_run(max: nat, m: TeeModel, rem: Seq<u8>) -> (TeeModel, Seq<(CapturedKind, Seq<u8>)>)
    decreases measure(m, rem),
    when runnable(m)
{
    match m.state {
        TeeReaderState::FindingHeaders { scan_pos } => {
            let buf = m.buf + rem;
            if m.upgraded {
                let d = spec_drain_frames(buf);
                (
                    TeeModel {
                        buf: d.1,
                        state: TeeReaderState::FindingHeaders { scan_pos: back3(d.1.len() as int) },
                        upgraded: true,
                    },
                    ws_chunks(d.0),
                )
            } else {
                let start = spec_find_http_start(buf);
                if !spec_starts_with_http(buf) && start is None {
                    (
                        TeeModel {
                            buf,
                            state: TeeReaderState::FindingHeaders { scan_pos: 0 },
                            upgraded: false,
                        },
                        Seq::empty(),
                    )
                } else {
                    let b = if spec_starts_with_http(buf) {
                        buf
                    } else {
                        buf.skip(start->0)
                    };
                    let eff: int = if spec_starts_with_http(buf) {
                        scan_pos as int
                    } else {
                        0
                    };
                    match spec_find_crlf2_from(b, back3(eff) as int) {
                        None => (
                            TeeModel {
                                buf: b,
                                state: TeeReaderState::FindingHeaders {
                                    scan_pos: back3(b.len() as int),
                                },
                                upgraded: false,
                            },
                            Seq::empty(),
                        ),
                        Some(p) => {
                            let he = p + 4;
                            let cl: nat = match spec_content_length(b.take(he)) {
                                Some(n) => n,
                                None => 0,
                            };
                            let lim: nat = if cl < max {
                                cl
                            } else {
                                max
                            };
                            spec_run(
                                max,
                                TeeModel {
                                    buf: b,
                                    state: TeeReaderState::CollectingBody {
                                        header_end: he as usize,
                                        content_length: cl as usize,
                                        capture_limit: lim as usize,
                                    },
                                    upgraded: false,
                                },
                                Seq::empty(),
                            )
                        },
                    }
                }
            }
        },
        TeeReaderState::CollectingBody { header_end, content_length, capture_limit } => {
            let buf = m.buf + rem;
            let he = header_end as int;
            if content_length == 0 {
                let h = buf.take(he);
                let up = m.upgraded || spec_upgrade_headers(h) || spec_is_101(h);
                let r = spec_run(
                    max,
                    TeeModel {
                        buf: buf.skip(he),
                        state: TeeReaderState::FindingHeaders { scan_pos: 0 },
                        upgraded: up,
                    },
                    Seq::empty(),
                );
                (r.0, seq![(CapturedKind::Http, h)] + r.1)
            } else if buf.len() - he < capture_limit {
                (TeeModel { buf, state: m.state, upgraded: m.upgraded }, Seq::empty())
            } else {
                let chunk = (CapturedKind::Http, buf.take(he + capture_limit));
                let total: int = if he + content_length > usize::MAX {
                    usize::MAX as int
                } else {
                    he + content_length
                };
                if buf.len() >= total {
                    let r = spec_run(
                        max,
                        TeeModel {
                            buf: buf.skip(total),
                            state: TeeReaderState::FindingHeaders { scan_pos: 0 },
                            upgraded: m.upgraded,
                        },
                        Seq::empty(),
                    );
                    (r.0, seq![chunk] + r.1)
                } else {
                    (
                        TeeModel {
                            buf: Seq::empty(),
                            state: TeeReaderState::DrainBody {
                                bytes_remaining: (total - buf.len()) as usize,
                            },
                            upgraded: m.upgraded,
                        },
                        seq![chunk],
                    )
                }
            }
        },
        TeeReaderState::DrainBody { bytes_remaining } => {
            let consumed: int = if rem.len() < bytes_remaining {
                rem.len() as int
            } else {
                bytes_remaining as int
            };
            let left = bytes_remaining - consumed;
            if left == 0 {
                spec_run(
                    max,
                    TeeModel {
                        buf: m.buf,
                        state: TeeReaderState::FindingHeaders { scan_pos: 0 },
                        upgraded: m.upgraded,
                    },
                    rem.skip(consumed),
                )
            } else {
                (
                    TeeModel {
                        buf: m.buf,
                        state: TeeReaderState::DrainBody { bytes_remaining: left as usize },
                        upgraded: m.upgraded,
                    },
                    Seq::empty(),
                )
            }
        },
    }
}


/// `true` when `from <= p` and no `\r\n\r\n` starts in `[from, len)`.
pub open spec fn no_crlf2_from(b: Seq<u8>, from: int) -> bool {
    forall|p: int| from <= p ==> !crlf2_at(b, p)
}

/// The position of the first `\r\n\r\n` at or after `from`.
fn find_crlf2_from(b: &[u8], from: usize) -> (r: Option<usize>)
    requires
        from <= b@.len(),
    ensures
        match spec_find_crlf2_from(b@, from as int) {
            Some(p) => r == Some(p as usize),
            None => r is None,
        },
        r matches Some(p) ==> first_crlf2_from(b@, from as int, p as int),
{
    let mut i: usize = from;
    while i < b.len()
        invariant
            from <= i <= b@.len(),
            forall|j: int| from <= j < i ==> !crlf2_at(b@, j),
        decreases b@.len() - i,
    {
        if bytes_occur_at(b, i, &[13u8, 10, 13, 10]) {
            proof {
                assert(crlf2_at(b@, i as int));
                assert(first_crlf2_from(b@, from as int, i as int));
                let c = choose|p: int| first_crlf2_from(b@, from as int, p);
                assert(first_crlf2_from(b@, from as int, c));
                if c < i {
                    assert(!crlf2_at(b@, c));
                }
                if (i as int) < c {
                    assert(!crlf2_at(b@, i as int));
                }
            }
            return Some(i);
        }
        i = i + 1;
    }
    proof {
        assert forall|p: int| !first_crlf2_from(b@, from as int, p) by {
            if first_crlf2_from(b@, from as int, p) {
                assert(crlf2_at(b@, p));
            }
        }
    }
    None
}

/// Appends `data[from..]` to `buf`.
fn append_from(buf: &mut Vec<u8>, data: &[u8], from: usize)
    requires
        from <= data@.len(),
    ensures
        final(buf)@ == old(buf)@ + data@.skip(from as int),
{
    let ghost start = buf@;
    let mut k: usize = from;
    while k < data.len()
        invariant
            from <= k <= data@.len(),
            buf@ =~= start + data@.subrange(from as int, k as int),
        decreases data@.len() - k,
    {
        buf.push(data[k]);
        k = k + 1;
    }
    assert(data@.subrange(from as int, data@.len() as int) =~= data@.skip(from as int));
}

/// Removes the first `n` bytes of `buf`.
fn drop_front(buf: &mut Vec<u8>, n: usize)
    requires
        n <= old(buf)@.len(),
    ensures
        final(buf)@ == old(buf)@.skip(n as int),
{
    let rest = copy_range(buf.as_slice(), n, buf.len());
    assert(rest@ =~= buf@.skip(n as int));
    *buf = rest;
}

proof fn lemma_chunk_views_push(v: Seq<CapturedChunk>, c: CapturedChunk)
    ensures
        chunk_views(v.push(c)) == chunk_views(v).push(c@),
{
    assert(chunk_views(v.push(c)) =~= chunk_views(v).push(c@));
}

/// Cuts every complete frame off the front of `buf` and records each as a
/// WebSocket chunk.
fn drain_frames(buf: &mut Vec<u8>, events: &mut Vec<CapturedChunk>)
    ensures
        final(buf)@ == spec_drain_frames(old(buf)@).1,
        chunk_views(final(events)@) == chunk_views(old(events)@) + ws_chunks(
            spec_drain_frames(old(buf)@).0,
        ),
{
    let ghost b0 = buf@;
    let ghost e0 = chunk_views(events@);
    loop
        invariant
            b0 == old(buf)@,
            e0 == chunk_views(old(events)@),
            spec_drain_frames(b0).1 == spec_drain_frames(buf@).1,
            e0 + ws_chunks(spec_drain_frames(b0).0) == chunk_views(events@) + ws_chunks(
                spec_drain_frames(buf@).0,
            ),
        decreases buf@.len(),
    {
        match try_extract_websocket_frame(buf.as_slice()) {
            Some((frame, consumed)) => {
                let ghost bb = buf@;
                let ghost ev = events@;
                let ghost r = spec_drain_frames(bb.skip(consumed as int));
                let c = CapturedChunk { kind: CapturedKind::WebSocket, bytes: frame };
                events.push(c);
                drop_front(buf, consumed);
                proof {
                    assert(spec_drain_frames(bb) == (seq![bb.take(consumed as int)] + r.0, r.1));
                    lemma_chunk_views_push(ev, c);
                    assert(ws_chunks(seq![bb.take(consumed as int)] + r.0) =~= seq![
                        (CapturedKind::WebSocket, bb.take(consumed as int)),
                    ] + ws_chunks(r.0));
                    assert(chunk_views(events@) + ws_chunks(r.0) =~= chunk_views(ev) + (seq![
                        (CapturedKind::WebSocket, bb.take(consumed as int)),
                    ] + ws_chunks(r.0)));
                }
            },
            None => {
                proof {
                    assert(spec_drain_frames(buf@) == (Seq::<Seq<u8>>::empty(), buf@));
                    assert(ws_chunks(Seq::<Seq<u8>>::empty()) =~= Seq::empty());
                    assert(chunk_views(events@) + Seq::<(CapturedKind, Seq<u8>)>::empty() =~= chunk_views(events@));
                }
                return;
            },
        }
    }
}

/// The capture side of one direction of a proxied connection: the buffered
/// bytes, the state of the machine and whether the connection has switched to
/// WebSocket frames.
#[derive(Clone, Debug)]
pub struct TeeCapture {
    /// Body bytes kept per captured HTTP message.
    pub max_body_size: usize,
    /// Bytes of the message being assembled; empty while draining.
    pub buf: Vec<u8>,
    pub state: TeeReaderState,
    /// Set once a WebSocket upgrade handshake has been seen; from then on the
    /// bytes are read as frames only.
    pub websocket_upgraded: bool,
}

impl TeeCapture {
    /// The machine's abstract state.
    pub open spec fn model(&self) -> TeeModel {
        TeeModel { buf: self.buf@, state: self.state, upgraded: self.websocket_upgraded }
    }

    /// The shape the machine keeps between loop steps (see `model_inv`).
    pub open spec fn step_inv(&self) -> bool {
        model_inv(self.max_body_size as nat, self.model())
    }

    /// The machine between reads: besides the step invariant, a body being
    /// collected has the length its header block declares (see
    /// `waiting_shape`).
    pub open spec fn wf(&self) -> bool {
        &&& self.waiting_shape()
        &&& length_recorded(self.model())
        &&& blank_recorded(self.model())
    }

    /// The step invariant, and a body being collected has a length and is
    /// still short of its capture limit.
    pub open spec fn waiting_shape(&self) -> bool {
        &&& self.step_inv()
        &&& match self.state {
            TeeReaderState::CollectingBody { header_end, content_length, capture_limit } => {
                content_length > 0 && self.buf@.len() - header_end < capture_limit
            },
            _ => true,
        }
    }

    /// A machine that has seen nothing yet.
    pub fn new(max_body_size: usize) -> (r: TeeCapture)
        ensures
            r.wf(),
            r.max_body_size == max_body_size,
            r.buf@.len() == 0,
            r.state == (TeeReaderState::FindingHeaders { scan_pos: 0 }),
            !r.websocket_upgraded,
    {
        TeeCapture {
            max_body_size,
            buf: Vec::new(),
            state: TeeReaderState::FindingHeaders { scan_pos: 0 },
            websocket_upgraded: false,
        }
    }

    /// One step from `FindingHeaders`: the bytes from `pos` on join the
    /// buffer, then frames are cut (after an upgrade) or a header block is
    /// looked for.
    #[verifier::rlimit(50)]
    fn step_finding(&mut self, new_data: &[u8], pos: usize, events: &mut Vec<CapturedChunk>) -> (r: (
        bool,
        usize,
    ))
        requires
            old(self).step_inv(),
            old(self).state is FindingHeaders,
            pos <= new_data@.len(),
        ensures
            final(self).step_inv(),
            final(self).max_body_size == old(self).max_body_size,
            r.1 <= new_data@.len(),
            step_result(
                old(self).max_body_size as nat,
                old(self).model(),
                new_data@.skip(pos as int),
                chunk_views(old(events)@),
                r.0,
                final(self).model(),
                new_data@.skip(r.1 as int),
                chunk_views(final(events)@),
            ),
            r.0 ==> final(self).waiting_shape(),
    {
        let ghost max = self.max_body_size as nat;
        let ghost m0 = self.model();
        let ghost rem0 = new_data@.skip(pos as int);
        let ghost ev0 = chunk_views(events@);
        let scan_pos = match self.state {
            TeeReaderState::FindingHeaders { scan_pos } => scan_pos,
            _ => 0,
        };
        append_from(&mut self.buf, new_data, pos);
        let end = new_data.len();
        assert(new_data@.skip(end as int) =~= Seq::<u8>::empty());
        assert(self.buf@ == m0.buf + rem0);
        if self.websocket_upgraded {
            drain_frames(&mut self.buf, events);
            let n = self.buf.len();
            let sp = if n >= 3 {
                n - 3
            } else {
                0
            };
            self.state = TeeReaderState::FindingHeaders { scan_pos: sp };
            proof {
                assert(sp == back3(n as int));
                assert(chunk_views(events@) =~= ev0 + spec_run(max, m0, rem0).1);
            }
            return (true, end);
        }
        let starts = starts_with_http(self.buf.as_slice());
        let eff: usize;
        if starts {
            eff = scan_pos;
        } else {
            match find_http_start(self.buf.as_slice()) {
                Some(p) => {
                    drop_front(&mut self.buf, p);
                    eff = 0;
                },
                None => {
                    self.state = TeeReaderState::FindingHeaders { scan_pos: 0 };
                    proof {
                        assert(chunk_views(events@) =~= ev0 + spec_run(max, m0, rem0).1);
                    }
                    return (true, end);
                },
            }
        }
        let search_from = if eff >= 3 {
            eff - 3
        } else {
            0
        };
        assert(search_from == back3(eff as int));
        let found = find_crlf2_from(self.buf.as_slice(), search_from);
        let blen0 = self.buf.len();
        proof {
            lemma_run_finding(max, m0, rem0, self.buf@, eff as int);
        }
        match found {
            None => {
                let n = self.buf.len();
                let sp = if n >= 3 {
                    n - 3
                } else {
                    0
                };
                assert(sp == back3(n as int));
                self.state = TeeReaderState::FindingHeaders { scan_pos: sp };
                proof {
                    assert(chunk_views(events@) =~= ev0 + spec_run(max, m0, rem0).1);
                }
                (true, end)
            },
            Some(p) => {
                let blen = self.buf.len();
                assert(crlf2_at(self.buf@, p as int));
                assert(seq![13u8, 10u8, 13u8, 10u8].len() == 4);
                let header_end = p + 4;
                let head = copy_range(self.buf.as_slice(), 0, header_end);
                assert(head@ =~= self.buf@.take(header_end as int));
                let content_length = match extract_content_length(head.as_slice()) {
                    Some(n) => n,
                    None => 0,
                };
                let capture_limit = if content_length < self.max_body_size {
                    content_length
                } else {
                    self.max_body_size
                };
                self.state = TeeReaderState::CollectingBody {
                    header_end,
                    content_length,
                    capture_limit,
                };
                assert(spec_run(max, m0, rem0) == spec_run(
                    max,
                    self.model(),
                    new_data@.skip(end as int),
                ));
                (false, end)
            },
        }
    }

    /// One step from `CollectingBody`: the bytes from `pos` on join the
    /// buffer; a message without a length is captured as its header block, a
    /// message whose capture limit is reached is captured and dropped or
    /// drained.
    #[verifier::rlimit(50)]
    fn step_collecting(&mut self, new_data: &[u8], pos: usize, events: &mut Vec<CapturedChunk>) -> (r: (
        bool,
        usize,
    ))
        requires
            old(self).step_inv(),
            old(self).state is CollectingBody,
            pos <= new_data@.len(),
        ensures
            final(self).step_inv(),
            final(self).max_body_size == old(self).max_body_size,
            r.1 <= new_data@.len(),
            step_result(
                old(self).max_body_size as nat,
                old(self).model(),
                new_data@.skip(pos as int),
                chunk_views(old(events)@),
                r.0,
                final(self).model(),
                new_data@.skip(r.1 as int),
                chunk_views(final(events)@),
            ),
            r.0 ==> final(self).waiting_shape(),
    {
        let ghost max = self.max_body_size as nat;
        let ghost m0 = self.model();
        let ghost rem0 = new_data@.skip(pos as int);
        let ghost ev0 = chunk_views(events@);
        let (header_end, content_length, capture_limit) = match self.state {
            TeeReaderState::CollectingBody { header_end, content_length, capture_limit } => (
                header_end,
                content_length,
                capture_limit,
            ),
            _ => (0, 0, 0),
        };
        append_from(&mut self.buf, new_data, pos);
        let end = new_data.len();
        assert(new_data@.skip(end as int) =~= Seq::<u8>::empty());
        assert(self.buf@ == m0.buf + rem0);
        assert(self.buf@.subrange(header_end - 4, header_end as int) =~= m0.buf.subrange(
            header_end - 4,
            header_end as int,
        ));
        if content_length == 0 {
            let headers = copy_range(self.buf.as_slice(), 0, header_end);
            assert(headers@ =~= self.buf@.take(header_end as int));
            let up = is_websocket_upgrade_headers(headers.as_slice()) || is_101_switching_protocols(
                headers.as_slice(),
            );
            let ghost ev = events@;
            let c = CapturedChunk { kind: CapturedKind::Http, bytes: headers };
            events.push(c);
            if up {
                self.websocket_upgraded = true;
            }
            drop_front(&mut self.buf, header_end);
            self.state = TeeReaderState::FindingHeaders { scan_pos: 0 };
            proof {
                lemma_chunk_views_push(ev, c);
                let r = spec_run(max, self.model(), new_data@.skip(end as int));
                assert(spec_run(max, m0, rem0) == (r.0, seq![c@] + r.1));
                assert(ev0 + (seq![c@] + r.1) =~= chunk_views(events@) + r.1);
            }
            (false, end)
        } else if self.buf.len() - header_end < capture_limit {
            proof {
                assert(chunk_views(events@) =~= ev0 + spec_run(max, m0, rem0).1);
            }
            (true, end)
        } else {
            let capture_end = header_end + capture_limit;
            let message = copy_range(self.buf.as_slice(), 0, capture_end);
            assert(message@ =~= self.buf@.take(capture_end as int));
            let ghost ev = events@;
            let c = CapturedChunk { kind: CapturedKind::Http, bytes: message };
            events.push(c);
            let total_message = if content_length > usize::MAX - header_end {
                usize::MAX
            } else {
                header_end + content_length
            };
            if self.buf.len() >= total_message {
                drop_front(&mut self.buf, total_message);
                self.state = TeeReaderState::FindingHeaders { scan_pos: 0 };
                proof {
                    lemma_chunk_views_push(ev, c);
                    let r = spec_run(max, self.model(), new_data@.skip(end as int));
                    assert(spec_run(max, m0, rem0) == (r.0, seq![c@] + r.1));
                    assert(ev0 + (seq![c@] + r.1) =~= chunk_views(events@) + r.1);
                }
                (false, end)
            } else {
                let bytes_remaining = total_message - self.buf.len();
                self.buf.clear();
                self.state = TeeReaderState::DrainBody { bytes_remaining };
                proof {
                    lemma_chunk_views_push(ev, c);
                    assert(self.buf@ =~= Seq::<u8>::empty());
                    assert(spec_run(max, m0, rem0) == (self.model(), seq![c@]));
                    assert(ev0 + seq![c@] =~= chunk_views(events@));
                }
                (true, end)
            }
        }
    }

    /// One step from `DrainBody`: bytes from `pos` on are counted off the
    /// rest of the message.
    fn step_draining(&mut self, new_data: &[u8], pos: usize) -> (r: (bool, usize))
        requires
            old(self).step_inv(),
            old(self).state is DrainBody,
            pos <= new_data@.len(),
        ensures
            final(self).step_inv(),
            final(self).max_body_size == old(self).max_body_size,
            final(self).buf == old(self).buf,
            r.1 <= new_data@.len(),
            step_result(
                old(self).max_body_size as nat,
                old(self).model(),
                new_data@.skip(pos as int),
                Seq::empty(),
                r.0,
                final(self).model(),
                new_data@.skip(r.1 as int),
                Seq::empty(),
            ),
            r.0 ==> final(self).waiting_shape(),
    {
        let ghost max = self.max_body_size as nat;
        let ghost m0 = self.model();
        let ghost rem0 = new_data@.skip(pos as int);
        let bytes_remaining = match self.state {
            TeeReaderState::DrainBody { bytes_remaining } => bytes_remaining,
            _ => 1,
        };
        let avail = new_data.len() - pos;
        let consumed = if avail < bytes_remaining {
            avail
        } else {
            bytes_remaining
        };
        let next = pos + consumed;
        let left = bytes_remaining - consumed;
        assert(rem0.skip(consumed as int) =~= new_data@.skip(next as int));
        if left == 0 {
            self.state = TeeReaderState::FindingHeaders { scan_pos: 0 };
            assert(spec_run(max, m0, rem0) == spec_run(max, self.model(), new_data@.skip(next as int)));
            assert(Seq::<(CapturedKind, Seq<u8>)>::empty() + spec_run(max, m0, rem0).1 =~= spec_run(max, m0, rem0).1);
            (false, next)
        } else {
            self.state = TeeReaderState::DrainBody { bytes_remaining: left };
            assert(spec_run(max, m0, rem0) == (self.model(), Seq::<(CapturedKind, Seq<u8>)>::empty()));
            assert(Seq::<(CapturedKind, Seq<u8>)>::empty() + Seq::<(CapturedKind, Seq<u8>)>::empty() =~= Seq::<(CapturedKind, Seq<u8>)>::empty());
            (true, next)
        }
    }

    /// Advances the machine over the bytes that were just read and returns
    /// the chunks it captured, in order.  The new state and the chunks are
    /// those of `spec_run`; each HTTP chunk is its bytes up to and including
    /// its first `\r\n\r\n`, followed by exactly `min(Content-Length,
    /// max_body_size)` body bytes.  The buffered
    /// and the new bytes together must fit in memory.
    pub fn advance_state(&mut self, new_data: &[u8]) -> (events: Vec<CapturedChunk>)
        requires
            old(self).wf(),
            old(self).buf@.len() + new_data@.len() <= usize::MAX,
        ensures
            final(self).wf(),
            http_chunks_exact(chunk_views(events@), old(self).max_body_size as nat),
            final(self).max_body_size == old(self).max_body_size,
            (final(self).model(), chunk_views(events@)) == spec_run(
                old(self).max_body_size as nat,
                old(self).model(),
                new_data@,
            ),
    {
        let ghost max = self.max_body_size as nat;
        let ghost target = spec_run(max, self.model(), new_data@);
        proof {
            lemma_http_captures_exact(max, self.model(), new_data@);
        }
        let mut events: Vec<CapturedChunk> = Vec::new();
        let mut pos: usize = 0;
        assert(new_data@.skip(0) =~= new_data@);
        assert(chunk_views(events@) + target.1 =~= target.1);
        loop
            invariant
                self.step_inv(),
                self.max_body_size == max,
                self.max_body_size == old(self).max_body_size,
                target == spec_run(old(self).max_body_size as nat, old(self).model(), new_data@),
                length_recorded(target.0),
                blank_recorded(target.0),
                http_chunks_exact(target.1, max),
                pos <= new_data@.len(),
                target.0 == spec_run(max, self.model(), new_data@.skip(pos as int)).0,
                target.1 == chunk_views(events@) + spec_run(
                    max,
                    self.model(),
                    new_data@.skip(pos as int),
                ).1,
            decreases measure(self.model(), new_data@.skip(pos as int)),
        {
            let ghost ev0 = chunk_views(events@);
            let ghost m0 = self.model();
            let ghost rem0 = new_data@.skip(pos as int);
            let (done, next) = match self.state {
                TeeReaderState::FindingHeaders { .. } => self.step_finding(new_data, pos, &mut events),
                TeeReaderState::CollectingBody { .. } => self.step_collecting(
                    new_data,
                    pos,
                    &mut events,
                ),
                TeeReaderState::DrainBody { .. } => self.step_draining(new_data, pos),
            };
            proof {
                let r0 = spec_run(max, m0, rem0);
                let r1 = spec_run(max, self.model(), new_data@.skip(next as int));
                if done {
                    assert(target.1 =~= chunk_views(events@));
                } else {
                    assert(target.1 == ev0 + r0.1);
                    assert(ev0 + r0.1 == chunk_views(events@) + r1.1);
                }
            }
            pos = next;
            if done {
                return events;
            }
        }
    }
}

/// From `FindingHeaders` before an upgrade, once the buffer `b` starts where
/// an HTTP message could and the scan resumes at `eff`, the run is decided by
/// the search for the blank line.
proof fn lemma_run_finding(max: nat, m: TeeModel, rem: Seq<u8>, b: Seq<u8>, eff: int)
    requires
        m.state is FindingHeaders,
        !m.upgraded,
        b.len() <= usize::MAX,
        spec_starts_with_http(m.buf + rem) ==> b == m.buf + rem && eff == m.state->scan_pos,
        !spec_starts_with_http(m.buf + rem) ==> spec_find_http_start(m.buf + rem) is Some && b == (
        m.buf + rem).skip(spec_find_http_start(m.buf + rem)->0) && eff == 0,
    ensures
        spec_run(max, m, rem) == match spec_find_crlf2_from(b, back3(eff) as int) {
            None => (
                TeeModel {
                    buf: b,
                    state: TeeReaderState::FindingHeaders { scan_pos: back3(b.len() as int) },
                    upgraded: false,
                },
                Seq::<(CapturedKind, Seq<u8>)>::empty(),
            ),
            Some(p) => {
                let he = p + 4;
                let cl: nat = match spec_content_length(b.take(he)) {
                    Some(n) => n,
                    None => 0,
                };
                let lim: nat = if cl < max {
                    cl
                } else {
                    max
                };
                spec_run(
                    max,
                    TeeModel {
                        buf: b,
                        state: TeeReaderState::CollectingBody {
                            header_end: he as usize,
                            content_length: cl as usize,
                            capture_limit: lim as usize,
                        },
                        upgraded: false,
                    },
                    Seq::empty(),
                )
            },
        },
{
    let buf = m.buf + rem;
    let scan_pos = m.state->scan_pos;
    assert(runnable(m));
    let start = spec_find_http_start(buf);
    let bb = if spec_starts_with_http(buf) {
        buf
    } else {
        buf.skip(start->0)
    };
    let e: int = if spec_starts_with_http(buf) {
        scan_pos as int
    } else {
        0
    };
    assert(bb == b);
    assert(e == eff);
    if spec_find_crlf2_from(b, back3(eff) as int) is None {
        assert(spec_run(max, m, rem).0.buf == b);
        assert(spec_run(max, m, rem).1 == Seq::<(CapturedKind, Seq<u8>)>::empty());
    } else {
        let p = spec_find_crlf2_from(b, back3(eff) as int)->0;
        assert(first_crlf2_from(b, back3(eff) as int, p));
        assert(crlf2_at(b, p));
        assert(seq![13u8, 10u8, 13u8, 10u8].len() == 4);
        let he = p + 4;
        let cl: nat = match spec_content_length(b.take(he)) {
            Some(n) => n,
            None => 0,
        };
        let lim: nat = if cl < max {
            cl
        } else {
            max
        };
        let m2 = TeeModel {
            buf: b,
            state: TeeReaderState::CollectingBody {
                header_end: he as usize,
                content_length: cl as usize,
                capture_limit: lim as usize,
            },
            upgraded: false,
        };
        assert(spec_run(max, m, rem) == spec_run(max, m2, Seq::empty()));
    }
}

/// `true` when `c` is a header block ending with `\r\n\r\n` followed by at
/// most `max` body bytes.
pub open spec fn http_chunk_within(c: Seq<u8>, max: nat) -> bool {
    exists|he: int| #[trigger] header_ends_at(c, he) && c.len() - he <= max
}

/// `true` when the first `he` bytes of `c` end with `\r\n\r\n`.
pub open spec fn header_ends_at(c: Seq<u8>, he: int) -> bool {
    4 <= he <= c.len() && crlf2_at(c, he - 4)
}

/// `true` when every HTTP chunk of `cs` is within `max` body bytes.
pub open spec fn http_chunks_within(cs: Seq<(CapturedKind, Seq<u8>)>, max: nat) -> bool {
    forall|i: int|
        0 <= i < cs.len() && cs[i].0 == CapturedKind::Http ==> http_chunk_within(#[trigger] cs[i].1, max)
}

proof fn lemma_within_cons(c: (CapturedKind, Seq<u8>), cs: Seq<(CapturedKind, Seq<u8>)>, max: nat)
    requires
        c.0 == CapturedKind::Http ==> http_chunk_within(c.1, max),
        http_chunks_within(cs, max),
    ensures
        http_chunks_within(seq![c] + cs, max),
{
    let all = seq![c] + cs;
    assert forall|i: int| 0 <= i < all.len() && all[i].0 == CapturedKind::Http implies http_chunk_within(
        #[trigger] all[i].1,
        max,
    ) by {
        if i > 0 {
            assert(all[i] == cs[i - 1]);
        }
    }
}

proof fn lemma_header_block_within(buf: Seq<u8>, he: int, n: int, max: nat)
    requires
        4 <= he <= n <= buf.len(),
        crlf2_at(buf, he - 4),
        n - he <= max,
    ensures
        http_chunk_within(buf.take(n), max),
{
    let c = buf.take(n);
    assert(c.subrange(he - 4, he) =~= buf.subrange(he - 4, he));
    assert(header_ends_at(c, he));
}

/// A captured HTTP message is never longer than its header block plus `max`
/// body bytes: whatever the machine reads, each HTTP chunk it captures is a
/// header block ending with `\r\n\r\n` followed by at most `max` bytes of the
/// body.
pub proof fn lemma_http_captures_within_limit(max: nat, m: TeeModel, rem: Seq<u8>)
    requires
        model_inv(max, m),
        max <= usize::MAX,
        m.buf.len() + rem.len() <= usize::MAX,
    ensures
        http_chunks_within(spec_run(max, m, rem).1, max),
    decreases measure(m, rem),
{
    let e = Seq::<(CapturedKind, Seq<u8>)>::empty();
    let buf = m.buf + rem;
    match m.state {
        TeeReaderState::FindingHeaders { scan_pos } => {
            if m.upgraded {
                let d = spec_drain_frames(buf);
                assert forall|i: int|
                    0 <= i < ws_chunks(d.0).len() implies #[trigger] ws_chunks(d.0)[i].0
                    == CapturedKind::WebSocket by {}
            } else {
                let start = spec_find_http_start(buf);
                if !spec_starts_with_http(buf) && start is None {
                } else {
                    let b = if spec_starts_with_http(buf) {
                        buf
                    } else {
                        buf.skip(start->0)
                    };
                    let eff: int = if spec_starts_with_http(buf) {
                        scan_pos as int
                    } else {
                        0
                    };
                    if !spec_starts_with_http(buf) {
                        let i = choose|i: int| first_http_start(buf, i);
                        assert(first_http_start(buf, i));
                    }
                    lemma_run_finding(max, m, rem, b, eff);
                    match spec_find_crlf2_from(b, back3(eff) as int) {
                        None => {},
                        Some(p) => {
                            assert(first_crlf2_from(b, back3(eff) as int, p));
                            assert(crlf2_at(b, p));
                            assert(seq![13u8, 10u8, 13u8, 10u8].len() == 4);
                            let he = p + 4;
                            let cl: nat = match spec_content_length(b.take(he)) {
                                Some(n) => n,
                                None => 0,
                            };
                            let lim: nat = if cl < max {
                                cl
                            } else {
                                max
                            };
                            let m2 = TeeModel {
                                buf: b,
                                state: TeeReaderState::CollectingBody {
                                    header_end: he as usize,
                                    content_length: cl as usize,
                                    capture_limit: lim as usize,
                                },
                                upgraded: false,
                            };
                            assert(model_inv(max, m2));
                            lemma_http_captures_within_limit(max, m2, Seq::empty());
                        },
                    }
                }
            }
        },
        TeeReaderState::CollectingBody { header_end, content_length, capture_limit } => {
            let he = header_end as int;
            assert(buf.subrange(he - 4, he) =~= m.buf.subrange(he - 4, he));
            if content_length == 0 {
                let h = buf.take(he);
                let up = m.upgraded || spec_upgrade_headers(h) || spec_is_101(h);
                let m2 = TeeModel {
                    buf: buf.skip(he),
                    state: TeeReaderState::FindingHeaders { scan_pos: 0 },
                    upgraded: up,
                };
                lemma_http_captures_within_limit(max, m2, Seq::empty());
                lemma_header_block_within(buf, he, he, max);
                lemma_within_cons((CapturedKind::Http, h), spec_run(max, m2, Seq::empty()).1, max);
            } else if buf.len() - he < capture_limit {
            } else {
                let chunk = (CapturedKind::Http, buf.take(he + capture_limit));
                lemma_header_block_within(buf, he, he + capture_limit, max);
                let total: int = if he + content_length > usize::MAX {
                    usize::MAX as int
                } else {
                    he + content_length
                };
                if buf.len() >= total {
                    let m2 = TeeModel {
                        buf: buf.skip(total),
                        state: TeeReaderState::FindingHeaders { scan_pos: 0 },
                        upgraded: m.upgraded,
                    };
                    lemma_http_captures_within_limit(max, m2, Seq::empty());
                    lemma_within_cons(chunk, spec_run(max, m2, Seq::empty()).1, max);
                } else {
                    lemma_within_cons(chunk, e, max);
                    assert(seq![chunk] + e =~= seq![chunk]);
                }
            }
        },
        TeeReaderState::DrainBody { bytes_remaining } => {
            let consumed: int = if rem.len() < bytes_remaining {
                rem.len() as int
            } else {
                bytes_remaining as int
            };
            if bytes_remaining - consumed == 0 {
                let m2 = TeeModel {
                    buf: m.buf,
                    state: TeeReaderState::FindingHeaders { scan_pos: 0 },
                    upgraded: m.upgraded,
                };
                lemma_http_captures_within_limit(max, m2, rem.skip(consumed));
            }
        },
    }
}

/// The body bytes captured with a message whose header block is `h`: its
/// declared content length (0 when absent or unreadable), but at most `max`.
pub open spec fn kept_body_len(h: Seq<u8>, max: nat) -> nat {
    let cl: nat = match spec_content_length(h) {
        Some(n) => n,
        None => 0,
    };
    if cl < max {
        cl
    } else {
        max
    }
}

/// `true` when no `\r\n\r\n` starts in `b` before position `end`.
pub open spec fn no_blank_before(b: Seq<u8>, end: int) -> bool {
    forall|j: int| 0 <= j < end ==> !crlf2_at(b, j)
}

/// `true` when `c` is its bytes up to and including its first `\r\n\r\n`
/// (the header block) followed by exactly `kept_body_len` of that block body
/// bytes.
pub open spec fn http_chunk_exact(c: Seq<u8>, max: nat) -> bool {
    exists|he: int|
        #[trigger] header_ends_at(c, he) && no_blank_before(c, he - 4) && c.len() - he
            == kept_body_len(c.take(he), max)
}

/// `true` when every HTTP chunk of `cs` is exact.
pub open spec fn http_chunks_exact(cs: Seq<(CapturedKind, Seq<u8>)>, max: nat) -> bool {
    forall|i: int|
        0 <= i < cs.len() && cs[i].0 == CapturedKind::Http ==> http_chunk_exact(#[trigger] cs[i].1, max)
}

/// `true` when a body being collected has the length its buffered header
/// block declares (0 when it declares none).
pub open spec fn length_recorded(m: TeeModel) -> bool {
    match m.state {
        TeeReaderState::CollectingBody { header_end, content_length, .. } => content_length
            == match spec_content_length(m.buf.take(header_end as int)) {
            Some(n) => n,
            None => 0,
        },
        _ => true,
    }
}

/// `true` when the machine's search for the blank line has missed nothing:
/// before an upgrade, no `\r\n\r\n` starts in the buffer before the place the
/// next search begins, and the header block being collected ends at the
/// first one.
pub open spec fn blank_recorded(m: TeeModel) -> bool {
    match m.state {
        TeeReaderState::FindingHeaders { scan_pos } => !m.upgraded ==> no_blank_before(
            m.buf,
            back3(scan_pos as int) as int,
        ),
        TeeReaderState::CollectingBody { header_end, .. } => no_blank_before(
            m.buf,
            header_end - 4,
        ),
        _ => true,
    }
}

proof fn lemma_exact_cons(c: (CapturedKind, Seq<u8>), cs: Seq<(CapturedKind, Seq<u8>)>, max: nat)
    requires
        c.0 == CapturedKind::Http ==> http_chunk_exact(c.1, max),
        http_chunks_exact(cs, max),
    ensures
        http_chunks_exact(seq![c] + cs, max),
{
    let all = seq![c] + cs;
    assert forall|i: int| 0 <= i < all.len() && all[i].0 == CapturedKind::Http implies http_chunk_exact(
        #[trigger] all[i].1,
        max,
    ) by {
        if i > 0 {
            assert(all[i] == cs[i - 1]);
        }
    }
}

proof fn lemma_content_length_fits(d: Seq<u8>)
    ensures
        spec_content_length(d) matches Some(n) ==> n <= usize::MAX,
{
}

/// A blank line found at `j` in a prefix-sharing sequence is found in the
/// other: `a` and `b` agree on `[0, n)`.
proof fn lemma_blank_same_prefix(a: Seq<u8>, b: Seq<u8>, n: int, j: int)
    requires
        0 <= j,
        j + 4 <= n,
        n <= a.len(),
        n <= b.len(),
        a.take(n) == b.take(n),
    ensures
        crlf2_at(a, j) == crlf2_at(b, j),
{
    assert(a.subrange(j, j + 4) =~= a.take(n).subrange(j, j + 4));
    assert(b.subrange(j, j + 4) =~= b.take(n).subrange(j, j + 4));
}

/// No blank line before `end` in `a` means none before `end` in `b` when
/// the two agree on their first `end + 3` bytes (or `b` is `a`'s prefix).
proof fn lemma_no_blank_prefix(a: Seq<u8>, b: Seq<u8>, end: int, n: int)
    requires
        no_blank_before(a, end),
        end + 3 <= n,
        n <= a.len(),
        n <= b.len(),
        a.take(n) == b.take(n),
    ensures
        no_blank_before(b, end),
{
    assert forall|j: int| 0 <= j < end implies !crlf2_at(b, j) by {
        lemma_blank_same_prefix(a, b, n, j);
    }
}

proof fn lemma_first_blank_exists(b: Seq<u8>, from: int, j: int)
    requires
        from <= j,
        crlf2_at(b, j),
    ensures
        exists|p: int| first_crlf2_from(b, from, p),
    decreases j - from,
{
    if exists|k: int| from <= k < j && crlf2_at(b, k) {
        let k = choose|k: int| from <= k < j && crlf2_at(b, k);
        lemma_first_blank_exists(b, from, k);
    } else {
        assert(first_crlf2_from(b, from, j));
    }
}

/// A captured HTTP message is its bytes up to and including its first
/// `\r\n\r\n`, then exactly `min(Content-Length, max)` body bytes (no length
/// counts as 0).  The machine keeps the length it read with the body it is
/// collecting and misses no blank line in its search, so this holds over any
/// sequence of reads.
#[verifier::rlimit(60)]
pub proof fn lemma_http_captures_exact(max: nat, m: TeeModel, rem: Seq<u8>)
    requires
        model_inv(max, m),
        length_recorded(m),
        blank_recorded(m),
        max <= usize::MAX,
        m.buf.len() + rem.len() <= usize::MAX,
    ensures
        http_chunks_exact(spec_run(max, m, rem).1, max),
        length_recorded(spec_run(max, m, rem).0),
        blank_recorded(spec_run(max, m, rem).0),
    decreases measure(m, rem),
{
    let e = Seq::<(CapturedKind, Seq<u8>)>::empty();
    let buf = m.buf + rem;
    match m.state {
        TeeReaderState::FindingHeaders { scan_pos } => {
            if m.upgraded {
                let d = spec_drain_frames(buf);
                assert forall|i: int|
                    0 <= i < ws_chunks(d.0).len() implies #[trigger] ws_chunks(d.0)[i].0
                    == CapturedKind::WebSocket by {}
            } else {
                let start = spec_find_http_start(buf);
                if !spec_starts_with_http(buf) && start is None {
                } else {
                    let b = if spec_starts_with_http(buf) {
                        buf
                    } else {
                        buf.skip(start->0)
                    };
                    let eff: int = if spec_starts_with_http(buf) {
                        scan_pos as int
                    } else {
                        0
                    };
                    if !spec_starts_with_http(buf) {
                        let i = choose|i: int| first_http_start(buf, i);
                        assert(first_http_start(buf, i));
                    }
                    lemma_run_finding(max, m, rem, b, eff);
                    let from = back3(eff) as int;
                    assert(no_blank_before(b, from)) by {
                        if spec_starts_with_http(buf) && from > 0 {
                            assert(m.buf.take(scan_pos as int) =~= b.take(scan_pos as int));
                            lemma_no_blank_prefix(m.buf, b, from, scan_pos as int);
                        }
                    }
                    match spec_find_crlf2_from(b, from) {
                        None => {
                            assert forall|j: int| 0 <= j < b.len() implies !crlf2_at(b, j) by {
                                if j >= from && crlf2_at(b, j) {
                                    lemma_first_blank_exists(b, from, j);
                                }
                            }
                        },
                        Some(p) => {
                            assert(first_crlf2_from(b, from, p));
                            assert(crlf2_at(b, p));
                            assert(seq![13u8, 10u8, 13u8, 10u8].len() == 4);
                            let he = p + 4;
                            lemma_content_length_fits(b.take(he));
                            let cl: nat = match spec_content_length(b.take(he)) {
                                Some(n) => n,
                                None => 0,
                            };
                            let lim: nat = if cl < max {
                                cl
                            } else {
                                max
                            };
                            let m2 = TeeModel {
                                buf: b,
                                state: TeeReaderState::CollectingBody {
                                    header_end: he as usize,
                                    content_length: cl as usize,
                                    capture_limit: lim as usize,
                                },
                                upgraded: false,
                            };
                            assert(model_inv(max, m2));
                            assert(length_recorded(m2));
                            assert(blank_recorded(m2));
                            lemma_http_captures_exact(max, m2, Seq::empty());
                        },
                    }
                }
            }
        },
        TeeReaderState::CollectingBody { header_end, content_length, capture_limit } => {
            let he = header_end as int;
            assert(buf.subrange(he - 4, he) =~= m.buf.subrange(he - 4, he));
            assert(buf.take(he) =~= m.buf.take(he));
            if content_length == 0 {
                let h = buf.take(he);
                let up = m.upgraded || spec_upgrade_headers(h) || spec_is_101(h);
                let m2 = TeeModel {
                    buf: buf.skip(he),
                    state: TeeReaderState::FindingHeaders { scan_pos: 0 },
                    upgraded: up,
                };
                lemma_http_captures_exact(max, m2, Seq::empty());
                assert(h.take(he) =~= h);
                assert(h.subrange(he - 4, he) =~= buf.subrange(he - 4, he));
                assert(header_ends_at(h, he));
                assert(m.buf.take(he) =~= h.take(he));
                lemma_no_blank_prefix(m.buf, h, he - 4, he);
                assert(http_chunk_exact(h, max));
                lemma_exact_cons((CapturedKind::Http, h), spec_run(max, m2, Seq::empty()).1, max);
            } else if buf.len() - he < capture_limit {
                let m1 = TeeModel { buf, state: m.state, upgraded: m.upgraded };
                assert(m1.buf.take(he) =~= m.buf.take(he));
                lemma_no_blank_prefix(m.buf, buf, he - 4, he);
            } else {
                let c = buf.take(he + capture_limit);
                let chunk = (CapturedKind::Http, c);
                assert(c.take(he) =~= m.buf.take(he));
                assert(c.subrange(he - 4, he) =~= buf.subrange(he - 4, he));
                assert(header_ends_at(c, he));
                lemma_no_blank_prefix(m.buf, c, he - 4, he);
                assert(http_chunk_exact(c, max));
                let total: int = if he + content_length > usize::MAX {
                    usize::MAX as int
                } else {
                    he + content_length
                };
                if buf.len() >= total {
                    let m2 = TeeModel {
                        buf: buf.skip(total),
                        state: TeeReaderState::FindingHeaders { scan_pos: 0 },
                        upgraded: m.upgraded,
                    };
                    lemma_http_captures_exact(max, m2, Seq::empty());
                    lemma_exact_cons(chunk, spec_run(max, m2, Seq::empty()).1, max);
                } else {
                    lemma_exact_cons(chunk, e, max);
                    assert(seq![chunk] + e =~= seq![chunk]);
                }
            }
        },
        TeeReaderState::DrainBody { bytes_remaining } => {
            let consumed: int = if rem.len() < bytes_remaining {
                rem.len() as int
            } else {
                bytes_remaining as int
            };
            if bytes_remaining - consumed == 0 {
                let m2 = TeeModel {
                    buf: m.buf,
                    state: TeeReaderState::FindingHeaders { scan_pos: 0 },
                    upgraded: m.upgraded,
                };
                lemma_http_captures_exact(max, m2, rem.skip(consumed));
            }
        },
    }
}

/// The outcome of one step from `m0` over `rem0`, with the chunks `e0`
/// already captured: a final step leaves the machine in the state `spec_run`
/// ends in with all of its chunks captured; another step leads to a state
/// from which `spec_run` ends in the same place and captures the rest, and
/// lowers the measure.
spec fn step_result(
    max: nat,
    m0: TeeModel,
    rem0: Seq<u8>,
    e0: Seq<(CapturedKind, Seq<u8>)>,
    done: bool,
    m1: TeeModel,
    rem1: Seq<u8>,
    e1: Seq<(CapturedKind, Seq<u8>)>,
) -> bool {
    let r0 = spec_run(max, m0, rem0);
    let r1 = spec_run(max, m1, rem1);
    if done {
        m1 == r0.0 && e1 == e0 + r0.1
    } else {
        r0.0 == r1.0 && e0 + r0.1 == e1 + r1.1 && measure(m1, rem1) < measure(m0, rem0)
            && runnable(m1)
    }
}

} // verus!
