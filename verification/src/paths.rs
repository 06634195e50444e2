//! Names and paths: sanitising names for files and directories, decoding
//! percent-encoded names, joining URLs, and resolving the resource paths of a
//! template.

use vstd::prelude::*;
use crate::text::{
    chars_of, copy_range, in_set, is_ascii_alnum, is_alphanumeric, is_control, is_control_char,
    matches_at, matches_at_exec, push_all, push_range, push_str, string_from_chars, trim, trim_range,
    trim_set, trim_set_end, trim_set_range, trim_set_start, unicode_alphanumeric,
};

verus! {

broadcast use vstd::string::group_string_axioms;

// ---------------------------------------------------------------------------
// Sanitising names
// ---------------------------------------------------------------------------

/// `s` with every character mapped by `f`.
pub open spec fn map_chars(s: Seq<char>, f: spec_fn(char) -> char) -> Seq<char> {
    Seq::new(s.len(), |i: int| f(s[i]))
}

/// A character kept in a template directory name: ASCII letters and digits,
/// `-` and `_`; any other becomes `_`.
pub open spec fn name_char(c: char) -> char {
    if is_ascii_alnum(c) || c == '-' || c == '_' {
        c
    } else {
        '_'
    }
}

/// A character kept in a custom template key: letters and digits of any script,
/// `-` and `_`; any other becomes `_`.
pub open spec fn key_char(c: char) -> char {
    if unicode_alphanumeric(c) || c == '-' || c == '_' {
        c
    } else {
        '_'
    }
}

/// A character kept in a file name: control characters and `<>:"/\|?*` become
/// `_`.
pub open spec fn file_char(c: char) -> char {
    if is_control_char(c) || c == '<' || c == '>' || c == ':' || c == '"' || c == '/' || c == '\\'
        || c == '|' || c == '?' || c == '*' {
        '_'
    } else {
        c
    }
}

fn file_char_exec(c: char) -> (r: char)
    ensures
        r == file_char(c),
{
    if is_control(c) || c == '<' || c == '>' || c == ':' || c == '"' || c == '/' || c == '\\' || c
        == '|' || c == '?' || c == '*' {
        '_'
    } else {
        c
    }
}

/// `s` if not empty, else `fallback`.
pub open spec fn or_default(s: Seq<char>, fallback: Seq<char>) -> Seq<char> {
    if s.len() == 0 {
        fallback
    } else {
        s
    }
}

/// A template directory name for `value`: every character but ASCII letters,
/// digits, `-` and `_` replaced by `_`; `template` when empty.
pub fn sanitize_name(value: &str) -> (r: String)
    ensures
        r@ == or_default(map_chars(value@, |c: char| name_char(c)), "template"@),
{
    let v = chars_of(value);
    let mut out: Vec<char> = Vec::new();
    let mut i: usize = 0;
    while i < v.len()
        invariant
            i <= v@.len(),
            out@ == map_chars(v@.take(i as int), |c: char| name_char(c)),
        decreases v@.len() - i,
    {
        let c = v[i];
        let k = if ('a' <= c && c <= 'z') || ('A' <= c && c <= 'Z') || ('0' <= c && c <= '9') || c
            == '-' || c == '_' {
            c
        } else {
            '_'
        };
        out.push(k);
        i += 1;
        assert(out@ =~= map_chars(v@.take(i as int), |c: char| name_char(c)));
    }
    assert(v@.take(i as int) =~= v@);
    if out.len() == 0 {
        "template".to_string()
    } else {
        string_from_chars(out)
    }
}

/// A custom template key for `value`: every character but letters and digits of
/// any script, `-` and `_` replaced by `_`; `template` when empty.
pub fn sanitize_custom_template_key(value: &str) -> (r: String)
    ensures
        r@ == or_default(map_chars(value@, |c: char| key_char(c)), "template"@),
{
    let v = chars_of(value);
    let mut out: Vec<char> = Vec::new();
    let mut i: usize = 0;
    while i < v.len()
        invariant
            i <= v@.len(),
            out@ == map_chars(v@.take(i as int), |c: char| key_char(c)),
        decreases v@.len() - i,
    {
        let c = v[i];
        let k = if is_alphanumeric(c) || c == '-' || c == '_' {
            c
        } else {
            '_'
        };
        out.push(k);
        i += 1;
        assert(out@ =~= map_chars(v@.take(i as int), |c: char| key_char(c)));
    }
    assert(v@.take(i as int) =~= v@);
    if out.len() == 0 {
        "template".to_string()
    } else {
        string_from_chars(out)
    }
}

/// `s[lo..hi]` with every character mapped by `file_char`.
fn map_file_chars(s: &[char], lo: usize, hi: usize) -> (r: Vec<char>)
    requires
        lo <= hi <= s@.len(),
    ensures
        r@ == map_chars(s@.subrange(lo as int, hi as int), |c: char| file_char(c)),
{
    let mut out: Vec<char> = Vec::new();
    let mut i = lo;
    while i < hi
        invariant
            lo <= i <= hi <= s@.len(),
            out@ == map_chars(s@.subrange(lo as int, i as int), |c: char| file_char(c)),
        decreases hi - i,
    {
        out.push(file_char_exec(s[i]));
        i += 1;
        assert(out@ =~= map_chars(s@.subrange(lo as int, i as int), |c: char| file_char(c)));
    }
    out
}

/// A file name for `value`: control characters and `<>:"/\|?*` replaced by `_`,
/// dots and spaces trimmed from both ends; `video.mp4` when nothing is left.
pub fn sanitize_file_name(value: &str) -> (r: String)
    ensures
        r@ == or_default(
            trim_set(map_chars(value@, |c: char| file_char(c)), seq!['.', ' ']),
            "video.mp4"@,
        ),
{
    let v = chars_of(value);
    let m = map_file_chars(&v, 0, v.len());
    assert(v@.subrange(0, v@.len() as int) =~= v@);
    let set = vec!['.', ' '];
    assert(set@ =~= seq!['.', ' ']);
    let (a, b) = trim_set_range(&m, 0, m.len(), &set);
    assert(m@.subrange(0, m@.len() as int) =~= m@);
    if a == b {
        "video.mp4".to_string()
    } else {
        string_from_chars(copy_range(&m, a, b))
    }
}

/// A file stem for a preview: control characters and `<>:"/\|?*` replaced by
/// `_`, whitespace trimmed, then dots trimmed; `video` when nothing is left.
pub fn sanitize_preview_file_stem(value: &str) -> (r: String)
    ensures
        r@ == or_default(
            trim_set(trim(map_chars(value@, |c: char| file_char(c))), seq!['.']),
            "video"@,
        ),
{
    let v = chars_of(value);
    let m = map_file_chars(&v, 0, v.len());
    assert(v@.subrange(0, v@.len() as int) =~= v@);
    let (a, b) = trim_range(&m, 0, m.len());
    assert(m@.subrange(0, m@.len() as int) =~= m@);
    let dot = vec!['.'];
    assert(dot@ =~= seq!['.']);
    let (c, d) = trim_set_range(&m, a, b, &dot);
    if c == d {
        "video".to_string()
    } else {
        string_from_chars(copy_range(&m, c, d))
    }
}

// ---------------------------------------------------------------------------
// Percent-encoded names
// ---------------------------------------------------------------------------

/// `b` is an ASCII hexadecimal digit.
pub open spec fn is_hex(b: u8) -> bool {
    (48 <= b && b <= 57) || (97 <= b && b <= 102) || (65 <= b && b <= 70)
}

/// The value of a hexadecimal digit.
pub open spec fn hex_value(b: u8) -> int {
    if 48 <= b && b <= 57 {
        b - 48
    } else if 97 <= b && b <= 102 {
        b - 97 + 10
    } else {
        b - 65 + 10
    }
}

/// The bytes of `b` with each `%` followed by two hexadecimal digits replaced by
/// the byte they write; every other byte kept.
pub open spec fn percent_decode(b: Seq<u8>) -> Seq<u8>
    decreases b.len(),
{
    if b.len() == 0 {
        seq![]
    } else if b[0] == 37 && 2 < b.len() && is_hex(b[1]) && is_hex(b[2]) {
        seq![(hex_value(b[1]) * 16 + hex_value(b[2])) as u8] + percent_decode(b.skip(3))
    } else {
        seq![b[0]] + percent_decode(b.drop_first())
    }
}

/// What `String::from_utf8_lossy` makes of the bytes `b`.
pub uninterp spec fn utf8_lossy(b: Seq<u8>) -> Seq<char>;

/// `String::from_utf8_lossy`: the text the bytes encode, with U+FFFD for each
/// invalid sequence.  Claimed: the result is a function of the bytes, and for
/// valid UTF-8 it is the text the bytes encode.
#[verifier::external_body]
fn from_utf8_lossy(bytes: &[u8]) -> (r: String)
    ensures
        r@ == utf8_lossy(bytes@),
        vstd::utf8::valid_utf8(bytes@) ==> r@ == vstd::utf8::decode_utf8(bytes@),
{
    String::from_utf8_lossy(bytes).to_string()
}

fn hex_digit(b: u8) -> (r: Option<u8>)
    ensures
        match r {
            Some(v) => is_hex(b) && v == hex_value(b),
            None => !is_hex(b),
        },
{
    if 48 <= b && b <= 57 {
        Some(b - 48)
    } else if 97 <= b && b <= 102 {
        Some(b - 97 + 10)
    } else if 65 <= b && b <= 70 {
        Some(b - 65 + 10)
    } else {
        None
    }
}

/// The percent-decoded bytes of `b`.
pub fn percent_decode_bytes(b: &[u8]) -> (r: Vec<u8>)
    ensures
        r@ == percent_decode(b@),
{
    let mut out: Vec<u8> = Vec::new();
    let mut i: usize = 0;
    let blen = b.len();
    assert(b@.skip(0) =~= b@);
    while i < blen
        invariant
            blen == b@.len(),
            i <= b@.len(),
            out@ + percent_decode(b@.skip(i as int)) == percent_decode(b@),
        decreases b@.len() - i,
    {
        let ghost rest = b@.skip(i as int);
        let ghost before = out@;
        if b[i] == 37 && blen - i > 2 {
            match (hex_digit(b[i + 1]), hex_digit(b[i + 2])) {
                (Some(high), Some(low)) => {
                    let v: u8 = high * 16 + low;
                    out.push(v);
                    assert(rest.skip(3) =~= b@.skip(i + 3));
                    assert(out@ + percent_decode(b@.skip(i + 3)) =~= before + percent_decode(rest));
                    i += 3;
                    continue;
                },
                _ => {},
            }
        }
        out.push(b[i]);
        assert(rest.drop_first() =~= b@.skip(i + 1));
        assert(out@ + percent_decode(b@.skip(i + 1)) =~= before + percent_decode(rest));
        i += 1;
    }
    out
}

/// The text of `value` with its percent escapes decoded: the decoded bytes as
/// UTF-8 when they are valid UTF-8, else as `String::from_utf8_lossy` reads
/// them (U+FFFD for each invalid sequence).
pub open spec fn percent_decoded_text(value: Seq<char>) -> Seq<char> {
    let b = percent_decode(vstd::utf8::encode_utf8(value));
    if vstd::utf8::valid_utf8(b) {
        vstd::utf8::decode_utf8(b)
    } else {
        utf8_lossy(b)
    }
}

/// `value` with its percent escapes decoded, the bytes read as UTF-8 with
/// U+FFFD for invalid sequences.
pub fn decode_percent_encoded(value: &str) -> (r: String)
    ensures
        r@ == percent_decoded_text(value@),
        r@ == utf8_lossy(percent_decode(vstd::utf8::encode_utf8(value@))),
        !value@.contains('%') ==> r@ == value@,
{
    let bytes = value.as_bytes();
    let decoded = percent_decode_bytes(bytes);
    proof {
        if !value@.contains('%') {
            lemma_encode_utf8_no_percent(value@);
            lemma_percent_decode_plain(vstd::utf8::encode_utf8(value@));
            vstd::utf8::encode_utf8_valid_utf8(value@);
            vstd::utf8::encode_utf8_decode_utf8(value@);
        }
    }
    from_utf8_lossy(&decoded)
}

/// Decoding leaves bytes without `%` unchanged.
pub proof fn lemma_percent_decode_plain(b: Seq<u8>)
    requires
        forall|i: int| 0 <= i < b.len() ==> b[i] != 37,
    ensures
        percent_decode(b) == b,
    decreases b.len(),
{
    if b.len() > 0 {
        lemma_percent_decode_plain(b.drop_first());
        assert(seq![b[0]] + b.drop_first() =~= b);
    }
}

proof fn lemma_scalar_no_percent(x: u32)
    requires
        x != 37,
    ensures
        forall|i: int|
            0 <= i < vstd::utf8::encode_scalar(x).len() ==> vstd::utf8::encode_scalar(x)[i] != 37,
{
    assert(x != 37 ==> (x & 0x7F) as u8 != 37 || x > 0x7f) by (bit_vector);
    assert((0xC0u8 | ((x >> 6) & 0x1F) as u8) != 37) by (bit_vector);
    assert((0xE0u8 | ((x >> 12) & 0x0F) as u8) != 37) by (bit_vector);
    assert((0xF0u8 | ((x >> 18) & 0x7) as u8) != 37) by (bit_vector);
    assert((0x80u8 | (x & 0x3F) as u8) != 37) by (bit_vector);
    assert((0x80u8 | ((x >> 6) & 0x3F) as u8) != 37) by (bit_vector);
    assert((0x80u8 | ((x >> 12) & 0x3F) as u8) != 37) by (bit_vector);
}

proof fn lemma_encode_utf8_no_percent(s: Seq<char>)
    requires
        !s.contains('%'),
    ensures
        forall|i: int|
            0 <= i < vstd::utf8::encode_utf8(s).len() ==> vstd::utf8::encode_utf8(s)[i] != 37,
    decreases s.len(),
{
    if s.len() > 0 {
        assert(!s.drop_first().contains('%')) by {
            if s.drop_first().contains('%') {
                let j = choose|j: int| 0 <= j < s.drop_first().len() && s.drop_first()[j] == '%';
                assert(s[j + 1] == '%');
            }
        }
        lemma_encode_utf8_no_percent(s.drop_first());
        assert(s[0] != '%');
        assert((s[0] as u32) != 37) by {
            if (s[0] as u32) == 37 {
                vstd::utf8::char_u32_cast(s[0], 37);
                assert((37u32 as char) == '%');
            }
        }
        lemma_scalar_no_percent(s[0] as u32);
        let e = vstd::utf8::encode_scalar(s[0] as u32);
        let r = vstd::utf8::encode_utf8(s.drop_first());
        assert(vstd::utf8::encode_utf8(s) == e + r);
        assert forall|i: int| 0 <= i < (e + r).len() implies (e + r)[i] != 37 by {
            if i < e.len() {
                assert((e + r)[i] == e[i]);
            } else {
                assert((e + r)[i] == r[i - e.len()]);
            }
        }
    }
}


// ---------------------------------------------------------------------------
// Manual file names and URLs
// ---------------------------------------------------------------------------

/// The text after the last `/` or `\` of `s` (all of `s` when there is none).
pub open spec fn after_last_sep(s: Seq<char>) -> Seq<char>
    decreases s.len(),
{
    if s.len() == 0 {
        s
    } else if s.last() == '/' || s.last() == '\\' {
        seq![]
    } else {
        after_last_sep(s.drop_last()).push(s.last())
    }
}

/// The file name for a downloaded manual named `encoded`: percent-decoded, the
/// text after the last `/` or `\`, trimmed, with control characters and
/// `<>:"/\|?*` replaced by `_` and spaces and dots trimmed from both ends; a
/// default name when nothing is left.
pub open spec fn manual_filename(encoded: Seq<char>) -> Seq<char> {
    let decoded = percent_decoded_text(encoded);
    let name = trim(after_last_sep(decoded));
    or_default(trim_set(map_chars(name, |c: char| file_char(c)), seq![' ', '.']), "AICut使用手册.docx"@)
}

fn after_last_sep_start(s: &[char]) -> (r: usize)
    ensures
        r <= s@.len(),
        s@.skip(r as int) == after_last_sep(s@),
{
    let mut i = s.len();
    assert(s@.take(s@.len() as int) =~= s@);
    assert(s@.skip(s@.len() as int) =~= Seq::<char>::empty());
    assert(after_last_sep(s@) =~= after_last_sep(s@.take(s@.len() as int)) + s@.skip(s@.len() as int));
    while i > 0 && s[i - 1] != '/' && s[i - 1] != '\\'
        invariant
            i <= s@.len(),
            after_last_sep(s@) == after_last_sep(s@.take(i as int)) + s@.skip(i as int),
        decreases i,
    {
        assert(s@.take(i as int).drop_last() =~= s@.take(i - 1));
        assert(s@.take(i as int).last() == s@[i - 1]);
        assert(seq![s@[i - 1]] + s@.skip(i as int) =~= s@.skip(i - 1));
        assert(after_last_sep(s@.take(i - 1)).push(s@[i - 1]) + s@.skip(i as int) =~= after_last_sep(s@.take(i - 1)) + s@.skip(i - 1));
        i -= 1;
    }
    if i == 0 {
        assert(s@.take(0) =~= Seq::<char>::empty());
    } else {
        assert(s@.take(i as int).last() == s@[i - 1]);
    }
    assert(after_last_sep(s@.take(i as int)) =~= Seq::<char>::empty());
    i
}

/// The file name for a downloaded manual whose header named it `encoded_name`
/// (see `manual_filename`).
pub fn sanitize_manual_filename(encoded_name: &str) -> (r: String)
    ensures
        r@ == manual_filename(encoded_name@),
{
    let decoded = decode_percent_encoded(encoded_name);
    let d = chars_of(decoded.as_str());
    let start = after_last_sep_start(&d);
    let (a, b) = trim_range(&d, start, d.len());
    assert(d@.subrange(start as int, d@.len() as int) =~= d@.skip(start as int));
    let m = map_file_chars(&d, a, b);
    let set = vec![' ', '.'];
    assert(set@ =~= seq![' ', '.']);
    let (c, e) = trim_set_range(&m, 0, m.len(), &set);
    assert(m@.subrange(0, m@.len() as int) =~= m@);
    if c == e {
        "AICut使用手册.docx".to_string()
    } else {
        string_from_chars(copy_range(&m, c, e))
    }
}

/// `p` is a prefix of `s`.
pub open spec fn has_prefix(s: Seq<char>, p: Seq<char>) -> bool {
    matches_at(s, p, 0)
}

/// `url` when it starts with `http://` or `https://`; else the base URL without
/// trailing `/`, a `/`, and `url` without leading `/`.  An error when the base is
/// then empty.
pub open spec fn resolved_url(base: Seq<char>, url: Seq<char>) -> Result<Seq<char>, Seq<char>> {
    if has_prefix(url, "http://"@) || has_prefix(url, "https://"@) {
        Ok(url)
    } else {
        let b = trim_set_end(base, seq!['/']);
        if b.len() == 0 {
            Err("Download URL is relative but API base URL is empty"@)
        } else {
            Ok(b + seq!['/'] + trim_set_start(url, seq!['/']))
        }
    }
}

/// `url` resolved against `base_url` (see `resolved_url`).
pub fn resolve_url(base_url: &str, url: &str) -> (r: Result<String, String>)
    ensures
        match resolved_url(base_url@, url@) {
            Ok(x) => r matches Ok(y) && y@ == x,
            Err(e) => r matches Err(m) && m@ == e,
        },
{
    let u = chars_of(url);
    let b = chars_of(base_url);
    if matches_at_exec(&u, &chars_of("http://"), 0) || matches_at_exec(&u, &chars_of("https://"), 0) {
        return Ok(url.to_string());
    }
    let slash = vec!['/'];
    assert(slash@ =~= seq!['/']);
    let mut bend = b.len();
    assert(b@.take(b@.len() as int) =~= b@);
    while bend > 0 && b[bend - 1] == '/'
        invariant
            bend <= b@.len(),
            trim_set_end(b@, seq!['/']) == trim_set_end(b@.take(bend as int), seq!['/']),
        decreases bend,
    {
        assert(b@.take(bend as int).drop_last() =~= b@.take(bend - 1));
        assert(b@.take(bend as int).last() == '/');
        assert(seq!['/'].contains('/')) by {
            assert(seq!['/'][0] == '/');
        }
        bend -= 1;
    }
    assert(bend > 0 ==> b@.take(bend as int).last() == b@[bend - 1]);
    if bend == 0 {
        assert(b@.take(0) =~= Seq::<char>::empty());
        return Err("Download URL is relative but API base URL is empty".to_string());
    }
    let (us, _) = trim_set_range(&u, 0, u.len(), &slash);
    assert(u@.subrange(0, u@.len() as int) =~= u@);
    let mut out: Vec<char> = Vec::new();
    push_range(&mut out, &b, 0, bend);
    out.push('/');
    push_range(&mut out, &u, us, u.len());
    assert(b@.subrange(0, bend as int) =~= b@.take(bend as int));
    assert(out@ =~= resolved_url(base_url@, url@)->Ok_0);
    Ok(string_from_chars(out))
}

/// `value` starts with `http://`, `https://` or `file://`.
pub open spec fn url_resource(v: Seq<char>) -> bool {
    has_prefix(v, "http://"@) || has_prefix(v, "https://"@) || has_prefix(v, "file://"@)
}

/// Whether `value` starts with `http://`, `https://` or `file://`.
pub fn is_url_resource_path(value: &str) -> (r: bool)
    ensures
        r == url_resource(value@),
{
    let v = chars_of(value);
    matches_at_exec(&v, &chars_of("http://"), 0) || matches_at_exec(&v, &chars_of("https://"), 0)
        || matches_at_exec(&v, &chars_of("file://"), 0)
}

/// `s` with every `\` replaced by `/`.
pub open spec fn forward_slashes(s: Seq<char>) -> Seq<char> {
    Seq::new(
        s.len(),
        |i: int|
            if s[i] == '\\' {
                '/'
            } else {
                s[i]
            },
    )
}

pub(crate) fn forward_slashes_exec(s: &[char], lo: usize, hi: usize) -> (r: Vec<char>)
    requires
        lo <= hi <= s@.len(),
    ensures
        r@ == forward_slashes(s@.subrange(lo as int, hi as int)),
{
    let mut out: Vec<char> = Vec::new();
    let mut i = lo;
    while i < hi
        invariant
            lo <= i <= hi <= s@.len(),
            out@ == forward_slashes(s@.subrange(lo as int, i as int)),
        decreases hi - i,
    {
        out.push(if s[i] == '\\' { '/' } else { s[i] });
        i += 1;
        assert(out@ =~= forward_slashes(s@.subrange(lo as int, i as int)));
    }
    out
}

/// A resource path is absolute: with `\` read as `/`, it starts with `/` (a root,
/// a UNC or a verbatim path), or with an ASCII character, `:` and `/` (a drive).
/// On Windows and elsewhere, `Path::is_absolute` accepts no path beyond these.
pub open spec fn absolute_resource(v: Seq<char>) -> bool {
    let n = forward_slashes(v);
    (n.len() > 0 && n[0] == '/') || (n.len() >= 3 && (n[0] as u32) < 128 && n[1] == ':' && n[2]
        == '/')
}

/// Whether `value` is an absolute path (see `absolute_resource`).
pub fn is_absolute_resource_path(value: &str) -> (r: bool)
    ensures
        r == absolute_resource(value@),
{
    let v = chars_of(value);
    let n = forward_slashes_exec(&v, 0, v.len());
    assert(v@.subrange(0, v@.len() as int) =~= v@);
    (n.len() > 0 && n[0] == '/') || (n.len() >= 3 && (n[0] as u32) < 128 && n[1] == ':' && n[2]
        == '/')
}

} // verus!
