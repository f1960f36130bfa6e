//! The lines that captured traffic is logged with, for each log level:
//! nothing when `off`, one summary line when `basic`, and with `full` the
//! summary with the message size, the headers and a preview of the body.
use vstd::prelude::*;

use crate::capture::{spec_body_preview, Capture, LogLevel};
use crate::storage::Headers;
use crate::sync::texts;
use crate::text::{append_str, decimal_text, push_decimal, string_from_chars};

verus! {

/// `name: value` pairs separated by `", "`.
pub open spec fn header_list_text(h: Seq<(Seq<char>, Seq<char>)>) -> Seq<char>
    decreases h.len(),
{
    if h.len() == 0 {
        Seq::empty()
    } else if h.len() == 1 {
        h[0].0 + ": "@ + h[0].1
    } else {
        header_list_text(h.drop_last()) + ", "@ + h.last().0 + ": "@ + h.last().1
    }
}

/// The headers as the log shows them: `{name: value, ...}`.
pub open spec fn headers_text(h: Seq<(Seq<char>, Seq<char>)>) -> Seq<char> {
    "{"@ + header_list_text(h) + "}"@
}

/// The lines a captured request is logged with: `→ METHOD URL [tunnel]` at
/// `basic`; at `full` the tunnel, method, URL and message size, then the
/// headers, then the body (`(empty)` when there is none).
pub open spec fn spec_request_log(
    level: LogLevel,
    tunnel: Seq<char>,
    method: Seq<char>,
    url: Seq<char>,
    size: nat,
    headers: Seq<(Seq<char>, Seq<char>)>,
    preview: Seq<char>,
) -> Seq<Seq<char>> {
    match level {
        LogLevel::Off => Seq::empty(),
        LogLevel::Basic => seq!["→ "@ + method + " "@ + url + " ["@ + tunnel + "]"@],
        LogLevel::Full => seq![
            "["@ + tunnel + "] → "@ + method + " "@ + url + " - "@ + decimal_text(size) + " bytes"@,
            "["@ + tunnel + "] Headers: "@ + headers_text(headers),
            "["@ + tunnel + "] Body: "@ + preview,
        ],
    }
}

/// The lines a captured response is logged with: `← STATUS [tunnel]` at
/// `basic`; at `full` the tunnel, status and message size, then the headers,
/// then the body (`(empty)` when there is none).
pub open spec fn spec_response_log(
    level: LogLevel,
    tunnel: Seq<char>,
    status: nat,
    size: nat,
    headers: Seq<(Seq<char>, Seq<char>)>,
    preview: Seq<char>,
) -> Seq<Seq<char>> {
    match level {
        LogLevel::Off => Seq::empty(),
        LogLevel::Basic => seq!["← "@ + decimal_text(status) + " ["@ + tunnel + "]"@],
        LogLevel::Full => seq![
            "["@ + tunnel + "] ← "@ + decimal_text(status) + " - "@ + decimal_text(size) + " bytes"@,
            "["@ + tunnel + "] Headers: "@ + headers_text(headers),
            "["@ + tunnel + "] Body: "@ + preview,
        ],
    }
}

/// The lines a captured WebSocket frame is logged with: `WS direction
/// [tunnel]` at `basic`; at `full` the opcode and the payload preview.
pub open spec fn spec_frame_log(
    level: LogLevel,
    tunnel: Seq<char>,
    direction: Seq<char>,
    opcode: nat,
    preview: Seq<char>,
) -> Seq<Seq<char>> {
    match level {
        LogLevel::Off => Seq::empty(),
        LogLevel::Basic => seq!["WS "@ + direction + " ["@ + tunnel + "]"@],
        LogLevel::Full => seq![
            "["@ + tunnel + "] WS "@ + direction + " - opcode: "@ + decimal_text(opcode) + ", payload: "@
                + preview,
        ],
    }
}

/// The line traffic that is neither HTTP nor a frame is logged with, at every
/// level.
pub open spec fn spec_raw_log(tunnel: Seq<char>, size: nat, direction: Seq<char>) -> Seq<char> {
    "Raw message ["@ + tunnel + "]: "@ + decimal_text(size) + " bytes - direction: "@ + direction
}

/// The body as a full log shows it: `(empty)` for an empty body, else its
/// preview of at most `limit` bytes.
pub open spec fn body_text(body: Seq<u8>, limit: nat) -> Seq<char> {
    if body.len() == 0 {
        "(empty)"@
    } else {
        spec_body_preview(body, limit)
    }
}

/// The body as a full log shows it (see `body_text`).
pub fn body_log_text(body: &[u8], limit: usize) -> (r: String)
    ensures
        r@ == body_text(body@, limit as nat),
{
    if body.len() == 0 {
        let mut out: Vec<char> = Vec::new();
        append_str(&mut out, "(empty)");
        string_from_chars(&out)
    } else {
        Capture::body_preview(body, limit)
    }
}

/// The headers as the log shows them (see `headers_text`).
pub fn headers_log_text(headers: &Headers) -> (r: String)
    ensures
        r@ == headers_text(headers@),
{
    let ghost h = headers@;
    let mut out: Vec<char> = Vec::new();
    append_str(&mut out, "{");
    let ghost head = out@;
    let mut i: usize = 0;
    assert(h.take(0) =~= Seq::<(Seq<char>, Seq<char>)>::empty());
    while i < headers.entries.len()
        invariant
            h == headers@,
            h.len() == headers.entries@.len(),
            i <= h.len(),
            head == "{"@,
            out@ == head + header_list_text(h.take(i as int)),
        decreases h.len() - i,
    {
        let ghost before = out@;
        if i > 0 {
            append_str(&mut out, ", ");
        }
        let (name, value) = &headers.entries[i];
        assert(h[i as int] == (name@, value@));
        append_str(&mut out, name.as_str());
        append_str(&mut out, ": ");
        append_str(&mut out, value.as_str());
        proof {
            let t = h.take(i + 1);
            assert(t.drop_last() =~= h.take(i as int));
            assert(t.last() == h[i as int]);
            if i == 0 {
                assert(t.len() == 1);
                assert(header_list_text(h.take(0)) =~= Seq::<char>::empty());
                assert(out@ =~= head + (t[0].0 + ": "@ + t[0].1));
            } else {
                assert(out@ =~= head + (header_list_text(t.drop_last()) + ", "@ + t.last().0 + ": "@
                    + t.last().1));
            }
        }
        i = i + 1;
    }
    assert(h.take(h.len() as int) =~= h);
    append_str(&mut out, "}");
    assert(out@ =~= headers_text(h));
    string_from_chars(&out)
}

/// `[tunnel] Headers: {...}` and `[tunnel] Body: preview`, the detail lines
/// of a message logged in full.
fn detail_lines(out: &mut Vec<String>, tunnel: &str, headers: &Headers, preview: &String)
    ensures
        texts(final(out)@) == texts(old(out)@).push("["@ + tunnel@ + "] Headers: "@ + headers_text(
            headers@,
        )).push("["@ + tunnel@ + "] Body: "@ + preview@),
{
    let ghost start = texts(out@);
    let mut h: Vec<char> = Vec::new();
    append_str(&mut h, "[");
    append_str(&mut h, tunnel);
    append_str(&mut h, "] Headers: ");
    let ht = headers_log_text(headers);
    append_str(&mut h, ht.as_str());
    let ghost l1 = "["@ + tunnel@ + "] Headers: "@ + headers_text(headers@);
    assert(h@ =~= l1);
    out.push(string_from_chars(&h));
    let mut b: Vec<char> = Vec::new();
    append_str(&mut b, "[");
    append_str(&mut b, tunnel);
    append_str(&mut b, "] Body: ");
    append_str(&mut b, preview.as_str());
    let ghost l2 = "["@ + tunnel@ + "] Body: "@ + preview@;
    assert(b@ =~= l2);
    let ghost mid = out@;
    out.push(string_from_chars(&b));
    assert(texts(mid) =~= start.push(l1));
    assert(texts(out@) =~= texts(mid).push(l2));
}

/// The lines a captured request is logged with at `level` (see
/// `spec_request_log`); `size` is the length of the raw message and the body
/// preview keeps at most `body_limit` bytes.
pub fn request_log_lines(
    level: LogLevel,
    tunnel: &str,
    method: &str,
    url: &str,
    size: usize,
    headers: &Headers,
    body: &[u8],
    body_limit: usize,
) -> (r: Vec<String>)
    ensures
        texts(r@) == spec_request_log(
            level,
            tunnel@,
            method@,
            url@,
            size as nat,
            headers@,
            body_text(body@, body_limit as nat),
        ),
{
    let mut out: Vec<String> = Vec::new();
    match level {
        LogLevel::Off => {
            assert(texts(out@) =~= Seq::<Seq<char>>::empty());
        },
        LogLevel::Basic => {
            let mut l: Vec<char> = Vec::new();
            append_str(&mut l, "→ ");
            append_str(&mut l, method);
            append_str(&mut l, " ");
            append_str(&mut l, url);
            append_str(&mut l, " [");
            append_str(&mut l, tunnel);
            append_str(&mut l, "]");
            out.push(string_from_chars(&l));
            assert(texts(out@) =~= seq![
                "→ "@ + method@ + " "@ + url@ + " ["@ + tunnel@ + "]"@,
            ]);
        },
        LogLevel::Full => {
            let mut l: Vec<char> = Vec::new();
            append_str(&mut l, "[");
            append_str(&mut l, tunnel);
            append_str(&mut l, "] → ");
            append_str(&mut l, method);
            append_str(&mut l, " ");
            append_str(&mut l, url);
            append_str(&mut l, " - ");
            push_decimal(&mut l, size as u64);
            append_str(&mut l, " bytes");
            let ghost l0 = "["@ + tunnel@ + "] → "@ + method@ + " "@ + url@ + " - "@ + decimal_text(
                size as nat,
            ) + " bytes"@;
            assert(l@ =~= l0);
            out.push(string_from_chars(&l));
            assert(texts(out@) =~= seq![l0]);
            let preview = body_log_text(body, body_limit);
            detail_lines(&mut out, tunnel, headers, &preview);
            assert(texts(out@) =~= spec_request_log(
                level,
                tunnel@,
                method@,
                url@,
                size as nat,
                headers@,
                body_text(body@, body_limit as nat),
            ));
        },
    }
    out
}

/// The lines a captured response is logged with at `level` (see
/// `spec_response_log`).
pub fn response_log_lines(
    level: LogLevel,
    tunnel: &str,
    status: u16,
    size: usize,
    headers: &Headers,
    body: &[u8],
    body_limit: usize,
) -> (r: Vec<String>)
    ensures
        texts(r@) == spec_response_log(
            level,
            tunnel@,
            status as nat,
            size as nat,
            headers@,
            body_text(body@, body_limit as nat),
        ),
{
    let mut out: Vec<String> = Vec::new();
    match level {
        LogLevel::Off => {
            assert(texts(out@) =~= Seq::<Seq<char>>::empty());
        },
        LogLevel::Basic => {
            let mut l: Vec<char> = Vec::new();
            append_str(&mut l, "← ");
            push_decimal(&mut l, status as u64);
            append_str(&mut l, " [");
            append_str(&mut l, tunnel);
            append_str(&mut l, "]");
            out.push(string_from_chars(&l));
            assert(texts(out@) =~= seq![
                "← "@ + decimal_text(status as nat) + " ["@ + tunnel@ + "]"@,
            ]);
        },
        LogLevel::Full => {
            let mut l: Vec<char> = Vec::new();
            append_str(&mut l, "[");
            append_str(&mut l, tunnel);
            append_str(&mut l, "] ← ");
            push_decimal(&mut l, status as u64);
            append_str(&mut l, " - ");
            push_decimal(&mut l, size as u64);
            append_str(&mut l, " bytes");
            let ghost l0 = "["@ + tunnel@ + "] ← "@ + decimal_text(status as nat) + " - "@
                + decimal_text(size as nat) + " bytes"@;
            assert(l@ =~= l0);
            out.push(string_from_chars(&l));
            assert(texts(out@) =~= seq![l0]);
            let preview = body_log_text(body, body_limit);
            detail_lines(&mut out, tunnel, headers, &preview);
            assert(texts(out@) =~= spec_response_log(
                level,
                tunnel@,
                status as nat,
                size as nat,
                headers@,
                body_text(body@, body_limit as nat),
            ));
        },
    }
    out
}

/// The lines a captured WebSocket frame is logged with at `level` (see
/// `spec_frame_log`).
pub fn frame_log_lines(
    level: LogLevel,
    tunnel: &str,
    direction: &str,
    opcode: u8,
    payload: &[u8],
    body_limit: usize,
) -> (r: Vec<String>)
    ensures
        texts(r@) == spec_frame_log(
            level,
            tunnel@,
            direction@,
            opcode as nat,
            spec_body_preview(payload@, body_limit as nat),
        ),
{
    let mut out: Vec<String> = Vec::new();
    match level {
        LogLevel::Off => {
            assert(texts(out@) =~= Seq::<Seq<char>>::empty());
        },
        LogLevel::Basic => {
            let mut l: Vec<char> = Vec::new();
            append_str(&mut l, "WS ");
            append_str(&mut l, direction);
            append_str(&mut l, " [");
            append_str(&mut l, tunnel);
            append_str(&mut l, "]");
            out.push(string_from_chars(&l));
            assert(texts(out@) =~= seq!["WS "@ + direction@ + " ["@ + tunnel@ + "]"@]);
        },
        LogLevel::Full => {
            let preview = Capture::body_preview(payload, body_limit);
            let mut l: Vec<char> = Vec::new();
            append_str(&mut l, "[");
            append_str(&mut l, tunnel);
            append_str(&mut l, "] WS ");
            append_str(&mut l, direction);
            append_str(&mut l, " - opcode: ");
            push_decimal(&mut l, opcode as u64);
            append_str(&mut l, ", payload: ");
            append_str(&mut l, preview.as_str());
            let ghost l0 = "["@ + tunnel@ + "] WS "@ + direction@ + " - opcode: "@ + decimal_text(
                opcode as nat,
            ) + ", payload: "@ + preview@;
            assert(l@ =~= l0);
            out.push(string_from_chars(&l));
            assert(texts(out@) =~= seq![l0]);
        },
    }
    out
}

/// The line traffic that is neither HTTP nor a frame is logged with (see
/// `spec_raw_log`).
pub fn raw_log_line(tunnel: &str, size: usize, direction: &str) -> (r: String)
    ensures
        r@ == spec_raw_log(tunnel@, size as nat, direction@),
{
    let mut l: Vec<char> = Vec::new();
    append_str(&mut l, "Raw message [");
    append_str(&mut l, tunnel);
    append_str(&mut l, "]: ");
    push_decimal(&mut l, size as u64);
    append_str(&mut l, " bytes - direction: ");
    append_str(&mut l, direction);
    assert(l@ =~= spec_raw_log(tunnel@, size as nat, direction@));
    string_from_chars(&l)
}

} // verus!
