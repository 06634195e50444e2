//! How the template bridge answers a request: where it is routed, the HTTP
//! response text, the exports already taken and the inbox of pending exports.

use vstd::prelude::*;
use vstd::utf8::encode_utf8;
use crate::bridge::{header_value, PrBridgeHttpRequest};
use crate::misc::{hex_digit_char, lower_prefix, PR_BRIDGE_PROTOCOL_VERSION};
use crate::scan::string_views;
use crate::text::{chars_of, decimal, push_str, push_u64, string_from_chars};
use std::collections::VecDeque;

verus! {

broadcast use vstd::string::group_string_axioms;

// ---------------------------------------------------------------------------
// JSON bodies
// ---------------------------------------------------------------------------

/// A character inside a JSON string as `serde_json` writes it: `"` and `\\`
/// escaped with a backslash, the control characters with a short escape where
/// JSON has one and as `\u00xx` (lowercase hexadecimal) otherwise, every other
/// character as itself.
pub open spec fn json_char(c: char) -> Seq<char> {
    if c == '"' {
        seq!['\\', '"']
    } else if c == '\\' {
        seq!['\\', '\\']
    } else if c == '\u{8}' {
        seq!['\\', 'b']
    } else if c == '\t' {
        seq!['\\', 't']
    } else if c == '\n' {
        seq!['\\', 'n']
    } else if c == '\u{c}' {
        seq!['\\', 'f']
    } else if c == '\r' {
        seq!['\\', 'r']
    } else if (c as int) < 0x20 {
        seq!['\\', 'u', '0', '0', hex_digit_char((c as int) / 16), hex_digit_char((c as int) % 16)]
    } else {
        seq![c]
    }
}

/// The characters of `s` as they stand inside a JSON string.
pub open spec fn json_chars(s: Seq<char>) -> Seq<char>
    decreases s.len(),
{
    if s.len() == 0 {
        seq![]
    } else {
        json_chars(s.drop_last()) + json_char(s.last())
    }
}

/// `s` as a JSON string.
pub open spec fn json_string(s: Seq<char>) -> Seq<char> {
    seq!['"'] + json_chars(s) + seq!['"']
}

/// The text of the JSON object `{"ok": false, "error": message}` as
/// `serde_json` writes it: compact, its keys in sorted order.
pub open spec fn error_body_json(message: Seq<char>) -> Seq<char> {
    "{\"error\":"@ + json_string(message) + ",\"ok\":false}"@
}

/// The text of the JSON object `{"ok": true, "accepted": true, "duplicate":
/// duplicate, "eventId": event_id}` as `serde_json` writes it: compact, its keys
/// in sorted order.
pub open spec fn accepted_body_json(duplicate: bool, event_id: Seq<char>) -> Seq<char> {
    "{\"accepted\":true,\"duplicate\":"@ + (if duplicate {
        "true"@
    } else {
        "false"@
    }) + ",\"eventId\":"@ + json_string(event_id) + ",\"ok\":true}"@
}

/// `serde_json`: `value` as a JSON string value, written as text (`Value`'s
/// compact `Display`).  Claimed: the text is `json_string(value)`, as
/// `serde_json`'s string escaping produces it.
#[verifier::external_body]
fn json_string_text(value: &str) -> (r: String)
    ensures
        r@ == json_string(value@),
{
    serde_json::Value::String(value.to_string()).to_string()
}

/// The body `{"error":message,"ok":false}` (see `error_body_json`).
fn pr_bridge_error_body(message: &str) -> (r: String)
    ensures
        r@ == error_body_json(message@),
{
    let mut out = chars_of("{\"error\":");
    push_str(&mut out, json_string_text(message).as_str());
    push_str(&mut out, ",\"ok\":false}");
    proof {
        reveal_strlit("{\"error\":");
        reveal_strlit(",\"ok\":false}");
    }
    assert(out@ =~= error_body_json(message@));
    string_from_chars(out)
}

/// The body `{"accepted":true,"duplicate":…,"eventId":…,"ok":true}` (see
/// `accepted_body_json`).
fn pr_bridge_accepted_body(duplicate: bool, event_id: &str) -> (r: String)
    ensures
        r@ == accepted_body_json(duplicate, event_id@),
{
    let mut out = chars_of("{\"accepted\":true,\"duplicate\":");
    if duplicate {
        push_str(&mut out, "true");
    } else {
        push_str(&mut out, "false");
    }
    push_str(&mut out, ",\"eventId\":");
    push_str(&mut out, json_string_text(event_id).as_str());
    push_str(&mut out, ",\"ok\":true}");
    assert(out@ =~= accepted_body_json(duplicate, event_id@));
    string_from_chars(out)
}

// ---------------------------------------------------------------------------
// Responses
// ---------------------------------------------------------------------------

/// The reason phrase of a status code; any code not listed is answered as an
/// internal server error.
pub open spec fn reason_phrase(status: u16) -> Seq<char> {
    if status == 200 {
        "OK"@
    } else if status == 204 {
        "No Content"@
    } else if status == 400 {
        "Bad Request"@
    } else if status == 401 {
        "Unauthorized"@
    } else if status == 404 {
        "Not Found"@
    } else if status == 409 {
        "Conflict"@
    } else if status == 413 {
        "Payload Too Large"@
    } else if status == 422 {
        "Unprocessable Entity"@
    } else {
        "Internal Server Error"@
    }
}

fn reason_phrase_exec(status: u16) -> (r: &'static str)
    ensures
        r@ == reason_phrase(status),
{
    match status {
        200 => "OK",
        204 => "No Content",
        400 => "Bad Request",
        401 => "Unauthorized",
        404 => "Not Found",
        409 => "Conflict",
        413 => "Payload Too Large",
        422 => "Unprocessable Entity",
        _ => "Internal Server Error",
    }
}

/// The complete response: status line, the JSON content type, the body's
/// length in UTF-8 bytes, the CORS and caching headers, `Connection: close`,
/// a blank line and the body.
pub open spec fn response_text(status: u16, body: Seq<char>) -> Seq<char> {
    "HTTP/1.1 "@ + decimal(status as nat) + " "@ + reason_phrase(status)
        + "\r\nContent-Type: application/json; charset=utf-8\r\nContent-Length: "@ + decimal(
        encode_utf8(body).len(),
    )
        + "\r\nAccess-Control-Allow-Origin: *\r\nAccess-Control-Allow-Methods: GET, POST, OPTIONS\r\nAccess-Control-Allow-Headers: Content-Type, X-AICut-Protocol, X-AICut-Session\r\nCache-Control: no-store\r\nConnection: close\r\n\r\n"@
        + body
}

/// The HTTP response with `status` and the JSON `body` (see `response_text`).
pub fn pr_bridge_http_response(status: u16, body: &str) -> (r: String)
    ensures
        r@ == response_text(status, body@),
{
    let mut out: Vec<char> = Vec::new();
    push_str(&mut out, "HTTP/1.1 ");
    push_u64(&mut out, status as u64);
    push_str(&mut out, " ");
    push_str(&mut out, reason_phrase_exec(status));
    push_str(&mut out, "\r\nContent-Type: application/json; charset=utf-8\r\nContent-Length: ");
    let length = body.as_bytes().len();
    assert(length == encode_utf8(body@).len());
    push_u64(&mut out, length as u64);
    push_str(
        &mut out,
        "\r\nAccess-Control-Allow-Origin: *\r\nAccess-Control-Allow-Methods: GET, POST, OPTIONS\r\nAccess-Control-Allow-Headers: Content-Type, X-AICut-Protocol, X-AICut-Session\r\nCache-Control: no-store\r\nConnection: close\r\n\r\n",
    );
    push_str(&mut out, body);
    string_from_chars(out)
}

/// The response with `status` whose body is the JSON error object for
/// `message`.
pub fn pr_bridge_error_response(status: u16, message: &str) -> (r: String)
    ensures
        r@ == response_text(status, error_body_json(message@)),
{
    let body = pr_bridge_error_body(message);
    pr_bridge_http_response(status, body.as_str())
}

/// The status for a request that could not be read: 413 when it was too large,
/// 400 otherwise.
pub open spec fn read_error_status(error: Seq<char>) -> u16 {
    if error == "request is too large"@ {
        413
    } else {
        400
    }
}

/// The answer to a request that could not be read (see `read_error_status`).
pub fn pr_bridge_read_error_response(error: &str) -> (r: String)
    ensures
        r@ == response_text(read_error_status(error@), error_body_json(error@)),
{
    let e = chars_of(error);
    let status: u16 = if crate::edit::chars_eq(&e, &chars_of("request is too large")) {
        413
    } else {
        400
    };
    pr_bridge_error_response(status, error)
}

/// The answer to an export that was taken (or had been taken before).
pub fn pr_bridge_accepted_response(duplicate: bool, event_id: &str) -> (r: String)
    ensures
        r@ == response_text(200, accepted_body_json(duplicate, event_id@)),
{
    let body = pr_bridge_accepted_body(duplicate, event_id);
    pr_bridge_http_response(200, body.as_str())
}

// ---------------------------------------------------------------------------
// Routing
// ---------------------------------------------------------------------------

/// Where a request goes.
#[derive(Clone, Copy, PartialEq, Eq, Structural)]
pub enum PrBridgeRoute {
    /// A CORS preflight: answered 204 with no body.
    Preflight,
    /// The health check: answered 200 with the bridge's description.
    Health,
    /// Any other endpoint: answered 404.
    NotFound,
    /// An export whose protocol or session header is wrong: answered 401.
    Unauthorized,
    /// An export whose body is not declared JSON: answered 400.
    UnsupportedContentType,
    /// An export to take.
    Export,
}

/// The route of a request with `method`, `path` and `headers` (names in
/// lowercase, the last occurrence counting) to the bridge of `session`.
pub open spec fn route_of(
    method: Seq<char>,
    path: Seq<char>,
    headers: Seq<(Seq<char>, Seq<char>)>,
    session: Seq<char>,
) -> PrBridgeRoute {
    if method == "OPTIONS"@ {
        PrBridgeRoute::Preflight
    } else if method == "GET"@ && path == "/v1/health"@ {
        PrBridgeRoute::Health
    } else if method != "POST"@ || path != "/v1/template-exports"@ {
        PrBridgeRoute::NotFound
    } else if header_value(headers, "x-aicut-protocol"@) != Some(
        decimal(PR_BRIDGE_PROTOCOL_VERSION as nat),
    ) || header_value(headers, "x-aicut-session"@) != Some(session) {
        PrBridgeRoute::Unauthorized
    } else if !(header_value(headers, "content-type"@) matches Some(v) && lower_prefix(
        v,
        "application/json"@,
    )) {
        PrBridgeRoute::UnsupportedContentType
    } else {
        PrBridgeRoute::Export
    }
}

/// The value of the last header named `name`.
fn header_lookup(headers: &Vec<(String, String)>, name: &str) -> (r: Option<Vec<char>>)
    ensures
        match r {
            None => header_value(headers@.map_values(|x: (String, String)| (x.0@, x.1@)), name@) is None,
            Some(v) => header_value(headers@.map_values(|x: (String, String)| (x.0@, x.1@)), name@)
                == Some(v@),
        },
{
    let ghost hs = headers@.map_values(|x: (String, String)| (x.0@, x.1@));
    let wanted = chars_of(name);
    let mut i = headers.len();
    assert(hs.take(hs.len() as int) =~= hs);
    while i > 0
        invariant
            i <= headers@.len(),
            hs == headers@.map_values(|x: (String, String)| (x.0@, x.1@)),
            wanted@ == name@,
            header_value(hs, name@) == header_value(hs.take(i as int), name@),
        decreases i,
    {
        assert(hs.take(i as int).last() == (headers@[i - 1].0@, headers@[i - 1].1@));
        assert(hs.take(i as int).drop_last() =~= hs.take(i - 1));
        let n = chars_of(headers[i - 1].0.as_str());
        if crate::edit::chars_eq(&n, &wanted) {
            return Some(chars_of(headers[i - 1].1.as_str()));
        }
        i -= 1;
    }
    None
}

/// Where `request` to the bridge of `session_id` goes (see `route_of`).
pub fn pr_bridge_route(request: &PrBridgeHttpRequest, session_id: &str) -> (r: PrBridgeRoute)
    ensures
        r == route_of(
            request.method@,
            request.path@,
            request.headers@.map_values(|x: (String, String)| (x.0@, x.1@)),
            session_id@,
        ),
{
    let method = chars_of(request.method.as_str());
    let path = chars_of(request.path.as_str());
    if crate::edit::chars_eq(&method, &chars_of("OPTIONS")) {
        return PrBridgeRoute::Preflight;
    }
    if crate::edit::chars_eq(&method, &chars_of("GET")) && crate::edit::chars_eq(
        &path,
        &chars_of("/v1/health"),
    ) {
        return PrBridgeRoute::Health;
    }
    if !crate::edit::chars_eq(&method, &chars_of("POST")) || !crate::edit::chars_eq(
        &path,
        &chars_of("/v1/template-exports"),
    ) {
        return PrBridgeRoute::NotFound;
    }
    let mut version: Vec<char> = Vec::new();
    push_u64(&mut version, PR_BRIDGE_PROTOCOL_VERSION as u64);
    let protocol_ok = match header_lookup(&request.headers, "x-aicut-protocol") {
        Some(v) => crate::edit::chars_eq(&v, &version),
        None => false,
    };
    let session_ok = match header_lookup(&request.headers, "x-aicut-session") {
        Some(v) => crate::edit::chars_eq(&v, &chars_of(session_id)),
        None => false,
    };
    if !protocol_ok || !session_ok {
        return PrBridgeRoute::Unauthorized;
    }
    let json = match header_lookup(&request.headers, "content-type") {
        Some(v) => crate::misc::lower_prefix_exec(&v, "application/json"),
        None => false,
    };
    if !json {
        return PrBridgeRoute::UnsupportedContentType;
    }
    PrBridgeRoute::Export
}

// ---------------------------------------------------------------------------
// Exports already taken
// ---------------------------------------------------------------------------

/// How many export ids the bridge remembers before it forgets them all.
pub const PR_BRIDGE_REMEMBERED_EVENTS: usize = 256;

/// Remembering `id` among `ids`: whether it was there already, and the ids
/// afterwards (a new id is added; when the list is full it is cleared first).
pub open spec fn remembered(ids: Seq<Seq<char>>, id: Seq<char>) -> (bool, Seq<Seq<char>>) {
    if ids.contains(id) {
        (true, ids)
    } else if ids.len() >= PR_BRIDGE_REMEMBERED_EVENTS {
        (false, seq![id])
    } else {
        (false, ids.push(id))
    }
}

/// Records the export `event_id` among those taken; returns whether it had
/// been taken already (see `remembered`).
pub fn remember_pr_bridge_event(processed: &mut Vec<String>, event_id: &str) -> (duplicate: bool)
    ensures
        (duplicate, string_views(final(processed)@)) == remembered(
            string_views(old(processed)@),
            event_id@,
        ),
{
    let ghost ids = string_views(processed@);
    let wanted = chars_of(event_id);
    let mut i: usize = 0;
    while i < processed.len()
        invariant
            i <= processed@.len(),
            ids == string_views(processed@),
            wanted@ == event_id@,
            forall|j: int| 0 <= j < i ==> ids[j] != event_id@,
        decreases processed@.len() - i,
    {
        let c = chars_of(processed[i].as_str());
        if crate::edit::chars_eq(&c, &wanted) {
            assert(ids[i as int] == event_id@);
            assert(ids.contains(event_id@));
            return true;
        }
        i += 1;
    }
    assert(!ids.contains(event_id@));
    if processed.len() >= PR_BRIDGE_REMEMBERED_EVENTS {
        processed.clear();
    }
    let ghost before = processed@;
    processed.push(event_id.to_string());
    assert(string_views(processed@) =~= string_views(before).push(event_id@));
    assert(processed@.len() == 1 ==> string_views(processed@) =~= seq![event_id@]);
    false
}

// ---------------------------------------------------------------------------
// Pending exports
// ---------------------------------------------------------------------------

/// How many exports wait for the editor at most.
pub const PR_BRIDGE_INBOX_LIMIT: usize = 16;

/// The inbox after `event` arrives: the oldest export leaves when the inbox is
/// full.
pub open spec fn inbox_after<T>(inbox: Seq<T>, event: T) -> Seq<T> {
    if inbox.len() >= PR_BRIDGE_INBOX_LIMIT {
        inbox.skip(1).push(event)
    } else {
        inbox.push(event)
    }
}

/// Puts `event` in the inbox (see `inbox_after`); returns how many exports
/// are pending afterwards.
pub fn push_pr_bridge_export<T>(inbox: &mut VecDeque<T>, event: T) -> (pending: usize)
    ensures
        final(inbox)@ == inbox_after(old(inbox)@, event),
        pending == final(inbox)@.len(),
{
    if inbox.len() >= PR_BRIDGE_INBOX_LIMIT {
        let _ = inbox.pop_front();
    }
    let ghost before = inbox@;
    inbox.push_back(event);
    proof {
        if old(inbox)@.len() >= PR_BRIDGE_INBOX_LIMIT {
            assert(before =~= old(inbox)@.skip(1));
        }
    }
    inbox.len()
}

/// Takes every pending export, oldest first, and leaves the inbox empty.
pub fn take_pr_bridge_exports<T>(inbox: &mut VecDeque<T>) -> (taken: Vec<T>)
    ensures
        taken@ == old(inbox)@,
        final(inbox)@.len() == 0,
{
    let mut taken: Vec<T> = Vec::new();
    loop
        invariant
            taken@ + inbox@ == old(inbox)@,
        decreases inbox@.len(),
    {
        let ghost before = inbox@;
        match inbox.pop_front() {
            Some(e) => {
                taken.push(e);
                assert(taken@ + inbox@ =~= old(inbox)@) by {
                    assert(before =~= seq![e] + inbox@);
                }
            },
            None => {
                assert(taken@ =~= old(inbox)@);
                return taken;
            },
        }
    }
}

} // verus!
