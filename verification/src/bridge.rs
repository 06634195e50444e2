//! The template bridge's HTTP handling: framing and parsing requests, routing
//! them, remembering the exports already taken, and framing responses.

use vstd::prelude::*;
use crate::text::{
    chars_of, copy_range, decimal, find_char_from, first_match, is_whitespace, is_ws,
    lemma_first_match, opt_int, parse_u64, parse_u64_spec, push_all, push_str, push_u64,
    string_from_chars, trim, trim_range,
};
use crate::misc::{first_blank_line, http_header_end, PR_BRIDGE_PROTOCOL_VERSION};
use crate::props::{ascii_lower_eq, ascii_lower_eq_exec};
use crate::scan::{char_views, string_views};

verus! {

broadcast use vstd::string::group_string_axioms;

/// The largest request the bridge reads, in bytes.
pub const PR_BRIDGE_MAX_REQUEST_BYTES: usize = 65536;

// ---------------------------------------------------------------------------
// Text of the header
// ---------------------------------------------------------------------------

/// `std::str::from_utf8`: the text the bytes encode, when they are valid UTF-8.
/// Claimed as the documentation states it: a result exactly for valid UTF-8,
/// and then the text it encodes.
#[verifier::external_body]
fn utf8_text(bytes: &[u8]) -> (r: Option<String>)
    ensures
        r is Some <==> vstd::utf8::valid_utf8(bytes@),
        r matches Some(s) ==> s@ == vstd::utf8::decode_utf8(bytes@),
{
    std::str::from_utf8(bytes).ok().map(|text| text.to_string())
}

/// `s` without a trailing `\r`.
pub open spec fn strip_cr(s: Seq<char>) -> Seq<char> {
    if s.len() > 0 && s.last() == '\r' {
        s.drop_last()
    } else {
        s
    }
}

/// The lines of `t` from `from` on, as `str::lines` splits them: at `\n`, a
/// `\r` just before the `\n` dropped, no line after a final `\n`.
pub open spec fn lines_from(t: Seq<char>, from: int) -> Seq<Seq<char>>
    decreases t.len() - from,
{
    if from < 0 || from >= t.len() {
        seq![]
    } else {
        match first_match(t, seq!['\n'], from) {
            None => seq![t.subrange(from, t.len() as int)],
            Some(e) => {
                proof {
                    lemma_first_match(t, seq!['\n'], from);
                }
                seq![strip_cr(t.subrange(from, e))] + lines_from(t, e + 1)
            },
        }
    }
}

pub(crate) fn lines_chars(t: &[char]) -> (r: Vec<Vec<char>>)
    ensures
        char_views(r@) == lines_from(t@, 0),
{
    let tlen = t.len();
    let mut r: Vec<Vec<char>> = Vec::new();
    let mut from: usize = 0;
    while from < tlen
        invariant
            tlen == t@.len(),
            from <= tlen,
            char_views(r@) + lines_from(t@, from as int) == lines_from(t@, 0),
        decreases tlen - from,
    {
        let end = match find_char_from(t, '\n', from) {
            Some(e) => {
                proof {
                    lemma_first_match(t@, seq!['\n'], from as int);
                }
                e
            },
            None => tlen,
        };
        let mut line = copy_range(t, from, end);
        if end < tlen && line.len() > 0 && line[line.len() - 1] == '\r' {
            let ghost before = line@;
            line.pop();
            assert(line@ =~= before.drop_last());
        }
        let ghost old_r = char_views(r@);
        proof {
            crate::scan::lemma_char_views_push(r@, line);
        }
        r.push(line);
        if end == tlen {
            assert(char_views(r@) =~= lines_from(t@, 0));
            return r;
        }
        assert(char_views(r@) + lines_from(t@, end + 1) =~= old_r + lines_from(t@, from as int));
        from = end + 1;
    }
    assert(char_views(r@) =~= char_views(r@) + lines_from(t@, from as int));
    r
}

/// A header line split at its first `:`, the name and the value trimmed.
pub open spec fn header_pair(line: Seq<char>) -> Option<(Seq<char>, Seq<char>)> {
    match first_match(line, seq![':'], 0) {
        None => None,
        Some(i) => Some((trim(line.take(i)), trim(line.skip(i + 1)))),
    }
}

fn header_pair_chars(line: &[char]) -> (r: Option<(Vec<char>, Vec<char>)>)
    ensures
        match r {
            None => header_pair(line@) is None,
            Some((n, v)) => header_pair(line@) == Some((n@, v@)),
        },
{
    match find_char_from(line, ':', 0) {
        None => None,
        Some(i) => {
            proof {
                lemma_first_match(line@, seq![':'], 0);
                assert(seq![':'].len() == 1);
            }
            let n = line.len();
            assert(i < n);
            let (a, b) = trim_range(line, 0, i);
            let (c, d) = trim_range(line, i + 1, n);
            assert(line@.subrange(0, i as int) =~= line@.take(i as int));
            assert(line@.subrange(i + 1, line@.len() as int) =~= line@.skip(i + 1));
            Some((copy_range(line, a, b), copy_range(line, c, d)))
        },
    }
}

/// `s.parse::<usize>()`.
pub open spec fn parse_usize_spec(s: Seq<char>) -> Option<usize> {
    match parse_u64_spec(s) {
        Some(n) => if n <= usize::MAX {
            Some(n as usize)
        } else {
            None
        },
        None => None,
    }
}

fn parse_usize(s: &[char]) -> (r: Option<usize>)
    ensures
        r == parse_usize_spec(s@),
{
    let v = parse_u64(s, 0, s.len());
    assert(s@.subrange(0, s@.len() as int) =~= s@);
    match v {
        Some(n) => if n <= usize::MAX as u64 {
            Some(n as usize)
        } else {
            None
        },
        None => None,
    }
}

// ---------------------------------------------------------------------------
// Reading a request
// ---------------------------------------------------------------------------

/// The declared body length among the header lines from `i` on: that of the
/// first line with a `:` whose trimmed name is `content-length` in any ASCII
/// case; `Some(None)` when it is not a number, `None` when there is no such line.
pub open spec fn first_content_length(lines: Seq<Seq<char>>, i: int) -> Option<Option<usize>>
    decreases lines.len() - i,
{
    if i < 0 || i >= lines.len() {
        None
    } else {
        match header_pair(lines[i]) {
            Some((n, v)) => if ascii_lower_eq(n, "content-length"@) {
                Some(parse_usize_spec(v))
            } else {
                first_content_length(lines, i + 1)
            },
            None => first_content_length(lines, i + 1),
        }
    }
}

/// The header text of a buffer that holds a complete header, when it is UTF-8.
pub open spec fn header_text(b: Seq<u8>, h: int) -> Option<Seq<char>> {
    if vstd::utf8::valid_utf8(b.take(h)) {
        Some(vstd::utf8::decode_utf8(b.take(h)))
    } else {
        None
    }
}

/// How many bytes a request needs, once its header is complete: the header,
/// the blank line and the declared body (saturating).  `Ok(None)` while the
/// header is incomplete; an error when it is not UTF-8 or declares a length that
/// is not a number.
pub open spec fn expected_length(b: Seq<u8>) -> Result<Option<usize>, Seq<char>> {
    match first_blank_line(b, 0) {
        None => Ok(None),
        Some(h) => match header_text(b, h) {
            None => Err("request headers are not UTF-8"@),
            Some(t) => match first_content_length(lines_from(t, 0), 1) {
                Some(None) => Err("invalid content-length"@),
                other => {
                    let cl = match other {
                        Some(Some(n)) => n as int,
                        _ => 0,
                    };
                    let total = h + 4 + cl;
                    Ok(
                        Some(
                            if total > usize::MAX {
                                usize::MAX
                            } else {
                                total as usize
                            },
                        ),
                    )
                },
            },
        },
    }
}

fn header_lines(buffer: &[u8], h: usize) -> (r: Option<Vec<Vec<char>>>)
    requires
        h <= buffer@.len(),
    ensures
        match r {
            None => header_text(buffer@, h as int) is None,
            Some(ls) => header_text(buffer@, h as int) matches Some(t) && char_views(ls@)
                == lines_from(t, 0),
        },
{
    let head = vstd::slice::slice_subrange(buffer, 0, h);
    assert(head@ =~= buffer@.take(h as int));
    match utf8_text(head) {
        None => None,
        Some(t) => Some(lines_chars(&chars_of(t.as_str()))),
    }
}

fn first_content_length_exec(lines: &Vec<Vec<char>>) -> (r: Option<Option<usize>>)
    ensures
        r == first_content_length(char_views(lines@), 1),
{
    let name = chars_of("content-length");
    let ghost ls = char_views(lines@);
    let mut i: usize = 1;
    while i < lines.len()
        invariant
            1 <= i,
            ls == char_views(lines@),
            name@ == "content-length"@,
            first_content_length(ls, 1) == first_content_length(ls, i as int),
        decreases lines@.len() - i,
    {
        assert(ls[i as int] == lines@[i as int]@);
        match header_pair_chars(&lines[i]) {
            Some((n, v)) => {
                if ascii_lower_eq_exec(&n, &name) {
                    return Some(parse_usize(&v));
                }
            },
            None => {},
        }
        i += 1;
    }
    if lines.len() == 0 {
        assert(first_content_length(ls, 1) == first_content_length(ls, 1));
    }
    None
}

/// How many bytes the request in `buffer` needs (see `expected_length`).
pub fn pr_bridge_expected_length(buffer: &[u8]) -> (r: Result<Option<usize>, String>)
    ensures
        match expected_length(buffer@) {
            Ok(x) => r matches Ok(y) && y == x,
            Err(e) => r matches Err(m) && m@ == e,
        },
{
    match http_header_end(buffer) {
        None => Ok(None),
        Some(h) => match header_lines(buffer, h) {
            None => Err("request headers are not UTF-8".to_string()),
            Some(lines) => match first_content_length_exec(&lines) {
                Some(None) => Err("invalid content-length".to_string()),
                other => {
                    let cl = match other {
                        Some(Some(n)) => n,
                        _ => 0,
                    };
                    Ok(Some(h.saturating_add(4).saturating_add(cl)))
                },
            },
        },
    }
}

/// What the reading loop does next with `buffer` read so far and the expected
/// length found so far: an error when the buffer is over the limit; else the
/// expected length (found now if not yet) and whether the request is complete.
pub fn pr_bridge_read_step(buffer: &[u8], expected: Option<usize>) -> (r: Result<
    (Option<usize>, bool),
    String,
>)
    ensures
        buffer@.len() > PR_BRIDGE_MAX_REQUEST_BYTES ==> (r matches Err(m) && m@
            == "request is too large"@),
        buffer@.len() <= PR_BRIDGE_MAX_REQUEST_BYTES ==> match expected {
            Some(n) => r == Ok::<(Option<usize>, bool), String>((Some(n), buffer@.len() >= n)),
            None => match expected_length(buffer@) {
                Err(e) => r matches Err(m) && m@ == e,
                Ok(None) => r == Ok::<(Option<usize>, bool), String>((None, false)),
                Ok(Some(n)) => r == Ok::<(Option<usize>, bool), String>(
                    (Some(n), buffer@.len() >= n),
                ),
            },
        },
{
    if buffer.len() > PR_BRIDGE_MAX_REQUEST_BYTES {
        return Err("request is too large".to_string());
    }
    let found = match expected {
        Some(n) => Some(n),
        None => match pr_bridge_expected_length(buffer) {
            Err(m) => {
                return Err(m);
            },
            Ok(x) => x,
        },
    };
    match found {
        Some(n) => Ok((Some(n), buffer.len() >= n)),
        None => Ok((None, false)),
    }
}

// ---------------------------------------------------------------------------
// Parsing a request
// ---------------------------------------------------------------------------

/// A request to the template bridge.  A header name may occur more than once;
/// the last occurrence counts.
pub struct PrBridgeHttpRequest {
    pub method: String,
    pub path: String,
    pub headers: Vec<(String, String)>,
    pub body: Vec<u8>,
}

/// The first position at or after `i` that holds whitespace, or the end.
pub open spec fn token_end(s: Seq<char>, i: int) -> int
    decreases s.len() - i,
{
    if 0 <= i < s.len() && !is_ws(s[i]) {
        token_end(s, i + 1)
    } else {
        i
    }
}

/// The whitespace-separated token of `s` that starts at or after `i`, and where
/// it ends.
pub open spec fn token_at(s: Seq<char>, i: int) -> Option<(Seq<char>, int)> {
    let a = crate::xml::ws_end(s, i);
    if a < 0 || a >= s.len() {
        None
    } else {
        Some((s.subrange(a, token_end(s, a)), token_end(s, a)))
    }
}

/// `s` up to its first `?`.
pub open spec fn before_query(s: Seq<char>) -> Seq<char> {
    match first_match(s, seq!['?'], 0) {
        Some(i) => s.take(i),
        None => s,
    }
}

/// The ASCII lowercase of `c`.
pub open spec fn ascii_lower(c: char) -> char {
    if 'A' <= c && c <= 'Z' {
        ((c as u32) + 32) as char
    } else {
        c
    }
}

/// The header pairs of the lines after the request line that have a `:`, the
/// names lowered.
pub open spec fn header_pairs(lines: Seq<Seq<char>>) -> Seq<(Seq<char>, Seq<char>)>
    decreases lines.len(),
{
    if lines.len() <= 1 {
        seq![]
    } else {
        let rest = header_pairs(lines.drop_last());
        match header_pair(lines.last()) {
            Some((n, v)) => rest.push((crate::paths::map_chars(n, |c: char| ascii_lower(c)), v)),
            None => rest,
        }
    }
}

/// The value of the last header named `name`.
pub open spec fn header_value(h: Seq<(Seq<char>, Seq<char>)>, name: Seq<char>) -> Option<Seq<char>>
    decreases h.len(),
{
    if h.len() == 0 {
        None
    } else if h.last().0 == name {
        Some(h.last().1)
    } else {
        header_value(h.drop_last(), name)
    }
}

/// The request in `b`: method and path (up to `?`) from the request line,
/// headers, and the body of the declared length.  An error message when the
/// request is incomplete or malformed.
pub open spec fn parsed_request(b: Seq<u8>) -> Result<
    (Seq<char>, Seq<char>, Seq<(Seq<char>, Seq<char>)>, Seq<u8>),
    Seq<char>,
> {
    match first_blank_line(b, 0) {
        None => Err("incomplete headers"@),
        Some(h) => match header_text(b, h) {
            None => Err("request headers are not UTF-8"@),
            Some(t) => {
                let lines = lines_from(t, 0);
                if lines.len() == 0 {
                    Err("missing request line"@)
                } else {
                    match token_at(lines[0], 0) {
                        None => Err("missing method"@),
                        Some((method, m_end)) => match token_at(lines[0], m_end) {
                            None => Err("missing path"@),
                            Some((path, _)) => {
                                let headers = header_pairs(lines);
                                let cl = match header_value(headers, "content-length"@) {
                                    Some(v) => parse_usize_spec(v),
                                    None => Some(0usize),
                                };
                                match cl {
                                    None => Err("invalid content-length"@),
                                    Some(n) => {
                                        let start = h + 4;
                                        let end = if start + n > usize::MAX {
                                            usize::MAX as int
                                        } else {
                                            start + n
                                        };
                                        if b.len() < end {
                                            Err("incomplete request body"@)
                                        } else {
                                            Ok((method, before_query(path), headers, b.subrange(start, end)))
                                        }
                                    },
                                }
                            },
                        },
                    }
                }
            },
        },
    }
}

fn token_at_chars(s: &[char], i: usize) -> (r: Option<(Vec<char>, usize)>)
    requires
        i <= s@.len(),
    ensures
        match r {
            None => token_at(s@, i as int) is None,
            Some((t, e)) => token_at(s@, i as int) == Some((t@, e as int)),
        },
{
    let a = crate::xml::skip_whitespace(s, i);
    if a >= s.len() {
        return None;
    }
    let mut e = a;
    while e < s.len() && !is_whitespace(s[e])
        invariant
            a <= e <= s@.len(),
            token_end(s@, a as int) == token_end(s@, e as int),
        decreases s@.len() - e,
    {
        e += 1;
    }
    Some((copy_range(s, a, e), e))
}

pub(crate) fn lower_chars(s: &[char]) -> (r: Vec<char>)
    ensures
        r@ == crate::paths::map_chars(s@, |c: char| ascii_lower(c)),
{
    let mut out: Vec<char> = Vec::new();
    let mut i: usize = 0;
    while i < s.len()
        invariant
            i <= s@.len(),
            out@ == crate::paths::map_chars(s@.take(i as int), |c: char| ascii_lower(c)),
        decreases s@.len() - i,
    {
        let c = s[i];
        let l = if 'A' <= c && c <= 'Z' {
            let b: u8 = (c as u32 + 32) as u8;
            let l = b as char;
            assert(l == ascii_lower(c)) by {
                assert((b as u32) == (c as u32) + 32);
            }
            l
        } else {
            c
        };
        out.push(l);
        i += 1;
        assert(out@ =~= crate::paths::map_chars(s@.take(i as int), |c: char| ascii_lower(c)));
    }
    assert(s@.take(i as int) =~= s@);
    out
}

fn header_pairs_exec(lines: &Vec<Vec<char>>) -> (r: Vec<(Vec<char>, Vec<char>)>)
    ensures
        crate::scan::char_pair_views(r@) == header_pairs(char_views(lines@)),
{
    let ghost ls = char_views(lines@);
    let mut r: Vec<(Vec<char>, Vec<char>)> = Vec::new();
    if lines.len() == 0 {
        assert(crate::scan::char_pair_views(r@) =~= header_pairs(ls));
        return r;
    }
    let mut i: usize = 1;
    assert(header_pairs(ls.take(1)) =~= Seq::<(Seq<char>, Seq<char>)>::empty());
    while i < lines.len()
        invariant
            1 <= i <= lines@.len(),
            ls == char_views(lines@),
            crate::scan::char_pair_views(r@) == header_pairs(ls.take(i as int)),
        decreases lines@.len() - i,
    {
        assert(ls.take(i + 1).drop_last() =~= ls.take(i as int));
        assert(ls.take(i + 1).last() == lines@[i as int]@);
        match header_pair_chars(&lines[i]) {
            Some((n, v)) => {
                let ghost old_r = r@;
                let ln = lower_chars(&n);
                r.push((ln, v));
                assert(crate::scan::char_pair_views(r@) =~= crate::scan::char_pair_views(old_r).push(
                    (ln@, v@),
                ));
            },
            None => {},
        }
        i += 1;
    }
    assert(ls.take(i as int) =~= ls);
    r
}

fn header_value_exec(h: &Vec<(Vec<char>, Vec<char>)>, name: &[char]) -> (r: Option<Vec<char>>)
    ensures
        match r {
            None => header_value(crate::scan::char_pair_views(h@), name@) is None,
            Some(v) => header_value(crate::scan::char_pair_views(h@), name@) == Some(v@),
        },
{
    let ghost hs = crate::scan::char_pair_views(h@);
    let mut i = h.len();
    assert(hs.take(hs.len() as int) =~= hs);
    while i > 0
        invariant
            i <= h@.len(),
            hs == crate::scan::char_pair_views(h@),
            header_value(hs, name@) == header_value(hs.take(i as int), name@),
        decreases i,
    {
        assert(hs.take(i as int).last() == (h@[i - 1].0@, h@[i - 1].1@));
        assert(hs.take(i as int).drop_last() =~= hs.take(i - 1));
        if crate::edit::chars_eq(&h[i - 1].0, name) {
            let mut v: Vec<char> = Vec::new();
            push_all(&mut v, &h[i - 1].1);
            assert(v@ =~= h@[i - 1].1@);
            return Some(v);
        }
        i -= 1;
    }
    None
}

fn before_query_chars(s: &[char]) -> (r: Vec<char>)
    ensures
        r@ == before_query(s@),
{
    match find_char_from(s, '?', 0) {
        Some(i) => {
            proof {
                lemma_first_match(s@, seq!['?'], 0);
            }
            let r = copy_range(s, 0, i);
            assert(r@ =~= s@.take(i as int));
            r
        },
        None => {
            let r = copy_range(s, 0, s.len());
            assert(r@ =~= s@);
            r
        },
    }
}

pub open spec fn request_view(r: PrBridgeHttpRequest) -> (
    Seq<char>,
    Seq<char>,
    Seq<(Seq<char>, Seq<char>)>,
    Seq<u8>,
) {
    (r.method@, r.path@, r.headers@.map_values(|x: (String, String)| (x.0@, x.1@)), r.body@)
}

/// The request in `buffer` (see `parsed_request`).
pub fn parse_pr_bridge_http_request(buffer: &[u8]) -> (r: Result<PrBridgeHttpRequest, String>)
    ensures
        match parsed_request(buffer@) {
            Ok(x) => r matches Ok(q) && request_view(q) == x,
            Err(e) => r matches Err(m) && m@ == e,
        },
{
    let h = match http_header_end(buffer) {
        None => {
            return Err("incomplete headers".to_string());
        },
        Some(h) => h,
    };
    let lines = match header_lines(buffer, h) {
        None => {
            return Err("request headers are not UTF-8".to_string());
        },
        Some(l) => l,
    };
    let blen = buffer.len();
    assert(h + 4 <= blen);
    if lines.len() == 0 {
        return Err("missing request line".to_string());
    }
    assert(char_views(lines@)[0] == lines@[0]@);
    let (method, m_end) = match token_at_chars(&lines[0], 0) {
        None => {
            return Err("missing method".to_string());
        },
        Some(x) => x,
    };
    proof {
        crate::xml::lemma_ws_end(lines@[0]@, 0);
    }
    assert(m_end <= lines@[0]@.len()) by {
        lemma_token_end(lines@[0]@, crate::xml::ws_end(lines@[0]@, 0));
    }
    let (path, _) = match token_at_chars(&lines[0], m_end) {
        None => {
            return Err("missing path".to_string());
        },
        Some(x) => x,
    };
    let headers = header_pairs_exec(&lines);
    let cl = match header_value_exec(&headers, &chars_of("content-length")) {
        Some(v) => parse_usize(&v),
        None => Some(0usize),
    };
    let n = match cl {
        None => {
            return Err("invalid content-length".to_string());
        },
        Some(n) => n,
    };
    let start = h + 4;
    let end = start.saturating_add(n);
    if buffer.len() < end {
        return Err("incomplete request body".to_string());
    }
    let body = copy_bytes(buffer, start, end);
    let mut hs: Vec<(String, String)> = Vec::new();
    let mut k: usize = 0;
    while k < headers.len()
        invariant
            k <= headers@.len(),
            hs@.map_values(|x: (String, String)| (x.0@, x.1@)) == crate::scan::char_pair_views(
                headers@.take(k as int),
            ),
        decreases headers@.len() - k,
    {
        let mut a: Vec<char> = Vec::new();
        push_all(&mut a, &headers[k].0);
        let mut b: Vec<char> = Vec::new();
        push_all(&mut b, &headers[k].1);
        assert(a@ =~= headers@[k as int].0@);
        assert(b@ =~= headers@[k as int].1@);
        let ghost old_hs = hs@;
        let sa = string_from_chars(a);
        let sb = string_from_chars(b);
        hs.push((sa, sb));
        assert(hs@.map_values(|x: (String, String)| (x.0@, x.1@)) =~= old_hs.map_values(
            |x: (String, String)| (x.0@, x.1@),
        ).push((sa@, sb@)));
        assert(crate::scan::char_pair_views(headers@.take(k + 1)) =~= crate::scan::char_pair_views(
            headers@.take(k as int),
        ).push((headers@[k as int].0@, headers@[k as int].1@)));
        k += 1;
    }
    assert(headers@.take(k as int) =~= headers@);
    let q = PrBridgeHttpRequest {
        method: string_from_chars(method),
        path: string_from_chars(before_query_chars(&path)),
        headers: hs,
        body,
    };
    Ok(q)
}

fn copy_bytes(b: &[u8], start: usize, end: usize) -> (r: Vec<u8>)
    requires
        start <= end <= b@.len(),
    ensures
        r@ == b@.subrange(start as int, end as int),
{
    let mut r: Vec<u8> = Vec::new();
    let mut i = start;
    while i < end
        invariant
            start <= i <= end <= b@.len(),
            r@ == b@.subrange(start as int, i as int),
        decreases end - i,
    {
        r.push(b[i]);
        i += 1;
        assert(r@ =~= b@.subrange(start as int, i as int));
    }
    r
}

proof fn lemma_token_end(s: Seq<char>, i: int)
    requires
        0 <= i <= s.len(),
    ensures
        i <= token_end(s, i) <= s.len(),
    decreases s.len() - i,
{
    if i < s.len() && !is_ws(s[i]) {
        lemma_token_end(s, i + 1);
    }
}

} // verus!
