//! Attributes of a single start tag: locating an attribute, reading its value,
//! replacing or inserting it, and removing it.

use vstd::prelude::*;
use crate::text::{
    byte_len, byte_offset, char_index, char_index_of, chars_of, find_char_from, find_from, first_match, is_whitespace, is_ws, lemma_first_match,
    matches_at, opt_int, push_all, push_range, rfind_before, last_match, string_from_chars,
    trim_end, trim_end_pos,
};
use crate::xml::{
    escape_attr, lemma_ws_end, push_escaped_attr, skip_whitespace, unescape, unescape_range, ws_end,
};

verus! {

// ---------------------------------------------------------------------------
// Locating an attribute
// ---------------------------------------------------------------------------

/// A character that may precede an attribute name: whitespace, `<` or `/`.
pub open spec fn attr_lead(c: char) -> bool {
    is_ws(c) || c == '<' || c == '/'
}

/// A character that may follow an attribute name: whitespace or `=`.
pub open spec fn attr_trail(c: char) -> bool {
    is_ws(c) || c == '='
}

/// The occurrence of `a` at `i` is a whole attribute name: it starts the tag or
/// follows whitespace, `<` or `/`, and it is followed by whitespace or `=`.
pub open spec fn attr_valid_at(s: Seq<char>, a: Seq<char>, i: int) -> bool {
    &&& matches_at(s, a, i)
    &&& (i == 0 || attr_lead(s[i - 1]))
    &&& i + a.len() < s.len()
    &&& attr_trail(s[i + a.len()])
}

/// The first occurrence of `a` at or after `from` that is a whole attribute name;
/// an occurrence that is not is stepped over by its whole length.
pub open spec fn attr_position_from(s: Seq<char>, a: Seq<char>, from: int) -> Option<int>
    decreases s.len() - from,
{
    if from < 0 || a.len() == 0 {
        None
    } else {
        match first_match(s, a, from) {
            None => None,
            Some(i) => if attr_valid_at(s, a, i) {
                Some(i)
            } else {
                proof {
                    lemma_first_match(s, a, from);
                }
                attr_position_from(s, a, i + a.len())
            },
        }
    }
}

/// Where the attribute `a` of the tag `s` starts.
pub open spec fn attr_position(s: Seq<char>, a: Seq<char>) -> Option<int> {
    attr_position_from(s, a, 0)
}

pub proof fn lemma_attr_position_from(s: Seq<char>, a: Seq<char>, from: int)
    ensures
        attr_position_from(s, a, from) matches Some(p) ==> from <= p && attr_valid_at(s, a, p),
    decreases s.len() - from,
{
    if from >= 0 && a.len() > 0 {
        lemma_first_match(s, a, from);
        if let Some(i) = first_match(s, a, from) {
            if !attr_valid_at(s, a, i) {
                lemma_attr_position_from(s, a, i + a.len());
            }
        }
    }
}

/// A character that ends an unquoted attribute value: whitespace, `>` or `/`.
pub open spec fn value_stop(c: char) -> bool {
    is_ws(c) || c == '>' || c == '/'
}

/// The first position at or after `i` holding a value stop, or the end of `s`.
pub open spec fn first_stop(s: Seq<char>, i: int) -> int
    decreases s.len() - i,
{
    if i < 0 || i >= s.len() {
        i
    } else if value_stop(s[i]) {
        i
    } else {
        first_stop(s, i + 1)
    }
}

pub proof fn lemma_first_stop(s: Seq<char>, i: int)
    requires
        0 <= i <= s.len(),
    ensures
        i <= first_stop(s, i) <= s.len(),
        forall|k: int| i <= k < first_stop(s, i) ==> !value_stop(#[trigger] s[k]),
        first_stop(s, i) < s.len() ==> value_stop(s[first_stop(s, i)]),
    decreases s.len() - i,
{
    if i < s.len() && !value_stop(s[i]) {
        lemma_first_stop(s, i + 1);
    }
}

/// `c` opens a quoted attribute value.
pub open spec fn is_quote(c: char) -> bool {
    c == '"' || c == '\''
}

/// The end of the attribute value that starts at `v`: just past the closing quote
/// of a quoted value, or the first value stop of an unquoted one.  `None` when
/// nothing starts at `v` or the closing quote is missing.
pub open spec fn value_end(s: Seq<char>, v: int) -> Option<int> {
    if v < 0 || v >= s.len() {
        None
    } else if is_quote(s[v]) {
        match first_match(s, seq![s[v]], v + 1) {
            None => None,
            Some(q) => Some(q + 1),
        }
    } else {
        Some(first_stop(s, v))
    }
}

/// The decoded attribute value that starts at `v`.
pub open spec fn value_at(s: Seq<char>, v: int) -> Option<Seq<char>> {
    match value_end(s, v) {
        None => None,
        Some(e) => if is_quote(s[v]) {
            Some(unescape(s.subrange(v + 1, e - 1)))
        } else {
            Some(unescape(s.subrange(v, e)))
        },
    }
}

/// Where the value of the attribute `a` starts: past the name, optional
/// whitespace, `=` and optional whitespace.  `None` when the attribute is absent
/// or not followed by `=`.
pub open spec fn attr_value_start(s: Seq<char>, a: Seq<char>) -> Option<int> {
    match attr_position(s, a) {
        None => None,
        Some(p) => {
            let k = ws_end(s, p + a.len());
            if k < s.len() && s[k] == '=' {
                Some(ws_end(s, k + 1))
            } else {
                None
            }
        },
    }
}

/// The decoded value of the attribute `a` of the tag `s`.
pub open spec fn attr_value(s: Seq<char>, a: Seq<char>) -> Option<Seq<char>> {
    match attr_value_start(s, a) {
        None => None,
        Some(v) => value_at(s, v),
    }
}

pub proof fn lemma_attr_value_start(s: Seq<char>, a: Seq<char>)
    ensures
        attr_value_start(s, a) matches Some(v) ==> (attr_position(s, a) matches Some(p) && p
            + a.len() < v <= s.len() && attr_valid_at(s, a, p)),
{
    lemma_attr_position_from(s, a, 0);
    if let Some(p) = attr_position(s, a) {
        lemma_ws_end(s, p + a.len());
        let k = ws_end(s, p + a.len());
        if k < s.len() && s[k] == '=' {
            lemma_ws_end(s, k + 1);
        }
    }
}

pub proof fn lemma_value_end(s: Seq<char>, v: int)
    ensures
        value_end(s, v) matches Some(e) ==> 0 <= v && v <= e <= s.len() && (is_quote(s[v]) ==> v
            + 2 <= e && s[e - 1] == s[v]),
{
    if 0 <= v < s.len() {
        if is_quote(s[v]) {
            lemma_first_match(s, seq![s[v]], v + 1);
            if let Some(q) = first_match(s, seq![s[v]], v + 1) {
                assert(s.subrange(q, q + 1)[0] == s[q]);
            }
        } else {
            lemma_first_stop(s, v);
        }
    }
}

/// Where the attribute `attribute` of `tag` starts (a character index): the
/// first occurrence of the name that follows the start of the tag, whitespace,
/// `<` or `/` and is followed by whitespace or `=`.
pub fn attr_position_chars(tag: &[char], attribute: &[char]) -> (r: Option<usize>)
    requires
        attribute@.len() > 0,
    ensures
        opt_int(r) == attr_position(tag@, attribute@),
{
    let tlen = tag.len();
    let alen = attribute.len();
    let mut from: usize = 0;
    loop
        invariant
            tlen == tag@.len(),
            alen == attribute@.len() > 0,
            attr_position(tag@, attribute@) == attr_position_from(tag@, attribute@, from as int),
        decreases tag@.len() - from,
    {
        match find_from(tag, attribute, from) {
            None => {
                return None;
            },
            Some(i) => {
                proof {
                    lemma_first_match(tag@, attribute@, from as int);
                }
                let valid_start = i == 0 || {
                    let c = tag[i - 1];
                    is_whitespace(c) || c == '<' || c == '/'
                };
                let valid_end = i + alen < tlen && {
                    let c = tag[i + alen];
                    is_whitespace(c) || c == '='
                };
                if valid_start && valid_end {
                    return Some(i);
                }
                from = i + alen;
            },
        }
    }
}

/// The first position at or after `i` holding whitespace, `>` or `/`, or the end.
fn find_value_stop(s: &[char], i: usize) -> (j: usize)
    requires
        i <= s@.len(),
    ensures
        j == first_stop(s@, i as int),
{
    let mut j = i;
    while j < s.len() && !(is_whitespace(s[j]) || s[j] == '>' || s[j] == '/')
        invariant
            i <= j <= s@.len(),
            first_stop(s@, i as int) == first_stop(s@, j as int),
        decreases s@.len() - j,
    {
        j += 1;
    }
    j
}

/// Where the attribute value that starts at `value_start` ends (character
/// indices): just past its closing quote when quoted, else at the first
/// whitespace, `>` or `/`.
pub fn value_end_chars(tag: &[char], value_start: usize) -> (r: Option<usize>)
    requires
        value_start <= tag@.len(),
    ensures
        opt_int(r) == value_end(tag@, value_start as int),
{
    if value_start >= tag.len() {
        return None;
    }
    let quote = tag[value_start];
    if quote == '"' || quote == '\'' {
        match find_char_from(tag, quote, value_start + 1) {
            None => None,
            Some(q) => {
                proof {
                    lemma_first_match(tag@, seq![quote], value_start + 1);
                }
                Some(q + 1)
            },
        }
    } else {
        Some(find_value_stop(tag, value_start))
    }
}

/// Where the attribute `attribute` of `tag` starts, as a byte offset (see
/// `attr_position_chars`).
pub fn find_xml_attribute_position(tag: &str, attribute: &str) -> (r: Option<usize>)
    requires
        attribute@.len() > 0,
        byte_len(tag@) <= usize::MAX,
    ensures
        match attr_position(tag@, attribute@) {
            Some(p) => r == Some(byte_len(tag@.take(p)) as usize),
            None => r is None,
        },
{
    let t = chars_of(tag);
    let a = chars_of(attribute);
    proof {
        lemma_attr_position_from(t@, a@, 0);
    }
    match attr_position_chars(&t, &a) {
        None => None,
        Some(p) => Some(byte_offset(&t, p)),
    }
}

/// Where the attribute value that starts at the byte offset `value_start` of
/// `tag` ends, as a byte offset: just past its closing quote when quoted, else
/// at the first whitespace, `>` or `/`.  `None` when no value starts there or
/// its closing quote is missing.
pub fn xml_attribute_value_end(tag: &str, value_start: usize) -> (r: Option<usize>)
    requires
        char_index(tag@, value_start as int) is Some,
        byte_len(tag@) <= usize::MAX,
    ensures
        match value_end(tag@, char_index(tag@, value_start as int)->0) {
            Some(e) => r == Some(byte_len(tag@.take(e)) as usize),
            None => r is None,
        },
{
    let t = chars_of(tag);
    let v = match char_index_of(&t, value_start) {
        Some(v) => v,
        None => {
            return None;
        },
    };
    proof {
        lemma_value_end(t@, v as int);
    }
    match value_end_chars(&t, v) {
        None => None,
        Some(e) => Some(byte_offset(&t, e)),
    }
}

/// The decoded value that starts at `v` (chars).
pub fn value_at_chars(s: &[char], v: usize) -> (r: Option<Vec<char>>)
    requires
        v <= s@.len(),
    ensures
        match r {
            Some(x) => value_at(s@, v as int) == Some(x@),
            None => value_at(s@, v as int) is None,
        },
{
    proof {
        lemma_value_end(s@, v as int);
    }
    match value_end_chars(s, v) {
        None => None,
        Some(e) => {
            if s[v] == '"' || s[v] == '\'' {
                Some(unescape_range(s, v + 1, e - 1))
            } else {
                Some(unescape_range(s, v, e))
            }
        },
    }
}

/// The decoded value of an attribute whose text starts at the beginning of
/// `value_start`: quoted up to the matching quote, or unquoted up to the first
/// whitespace, `>` or `/`.
pub fn parse_xml_attribute_value(value_start: &str) -> (r: Option<String>)
    ensures
        match r {
            Some(x) => value_at(value_start@, 0) == Some(x@),
            None => value_at(value_start@, 0) is None,
        },
{
    let v = chars_of(value_start);
    match value_at_chars(&v, 0) {
        None => None,
        Some(x) => Some(string_from_chars(x)),
    }
}

/// Where the value of the attribute `a` starts (chars).
pub fn attr_value_start_chars(tag: &[char], a: &[char]) -> (r: Option<usize>)
    requires
        a@.len() > 0,
    ensures
        opt_int(r) == attr_value_start(tag@, a@),
{
    proof {
        lemma_attr_position_from(tag@, a@, 0);
    }
    match attr_position_chars(tag, a) {
        None => None,
        Some(p) => {
            let tlen = tag.len();
            assert(attr_valid_at(tag@, a@, p as int));
            let k = skip_whitespace(tag, p + a.len());
            if k < tag.len() && tag[k] == '=' {
                Some(skip_whitespace(tag, k + 1))
            } else {
                None
            }
        },
    }
}

/// The decoded value of the attribute `a` of `tag` (chars).
pub fn attr_value_chars(tag: &[char], a: &[char]) -> (r: Option<Vec<char>>)
    requires
        a@.len() > 0,
    ensures
        match r {
            Some(x) => attr_value(tag@, a@) == Some(x@),
            None => attr_value(tag@, a@) is None,
        },
{
    proof {
        lemma_attr_value_start(tag@, a@);
    }
    match attr_value_start_chars(tag, a) {
        None => None,
        Some(v) => value_at_chars(tag, v),
    }
}

/// The decoded value of the attribute `attribute` of the start tag `tag`.
pub fn xml_attribute_value(tag: &str, attribute: &str) -> (r: Option<String>)
    requires
        attribute@.len() > 0,
    ensures
        match r {
            Some(x) => attr_value(tag@, attribute@) == Some(x@),
            None => attr_value(tag@, attribute@) is None,
        },
{
    let t = chars_of(tag);
    let a = chars_of(attribute);
    match attr_value_chars(&t, &a) {
        None => None,
        Some(x) => Some(string_from_chars(x)),
    }
}


// ---------------------------------------------------------------------------
// Writing and removing an attribute
// ---------------------------------------------------------------------------

/// `a="escaped value"`
pub open spec fn attr_text(a: Seq<char>, val: Seq<char>) -> Seq<char> {
    a + seq!['=', '"'] + escape_attr(val) + seq!['"']
}

/// Where a new attribute is inserted: before the last `/>`, else before the
/// last `>`, else at the end.
pub open spec fn insert_position(s: Seq<char>) -> int {
    match last_match(s, seq!['/', '>'], s.len() as int) {
        Some(i) => i,
        None => match last_match(s, seq!['>'], s.len() as int) {
            Some(i) => i,
            None => s.len() as int,
        },
    }
}

/// The position and the extent of the value of the attribute `a`, when the tag
/// has the attribute with a complete value.
pub open spec fn attr_span(s: Seq<char>, a: Seq<char>) -> Option<(int, int)> {
    match attr_value_start(s, a) {
        None => None,
        Some(v) => match value_end(s, v) {
            None => None,
            Some(e) => Some((attr_position(s, a)->0, e)),
        },
    }
}

/// The tag `s` with the attribute `a` set to `val`: an attribute that has a
/// complete value is rewritten in place as `a="…"`; otherwise ` a="…"` is added
/// before the tag's end, after trimming the whitespace there.
pub open spec fn replace_or_insert_attr(s: Seq<char>, a: Seq<char>, val: Seq<char>) -> Seq<char> {
    match attr_span(s, a) {
        Some((p, e)) => s.take(p) + attr_text(a, val) + s.skip(e),
        None => {
            let ip = insert_position(s);
            trim_end(s.take(ip)) + seq![' '] + attr_text(a, val) + s.skip(ip)
        },
    }
}

/// The first position of the run of spaces and tabs that ends at `p`.
pub open spec fn blank_start(s: Seq<char>, p: int) -> int
    decreases p,
{
    if p > 0 && p <= s.len() && (s[p - 1] == ' ' || s[p - 1] == '\t') {
        blank_start(s, p - 1)
    } else {
        p
    }
}

/// The tag `s` without the attribute `a` and the spaces and tabs before it; the
/// tag unchanged when it has no such attribute with a complete value.
pub open spec fn remove_attr(s: Seq<char>, a: Seq<char>) -> Seq<char> {
    match attr_span(s, a) {
        Some((p, e)) => s.take(blank_start(s, p)) + s.skip(e),
        None => s,
    }
}

pub proof fn lemma_attr_span(s: Seq<char>, a: Seq<char>)
    ensures
        attr_span(s, a) matches Some((p, e)) ==> 0 <= p && p + a.len() < e && e <= s.len()
            && attr_position(s, a) == Some(p) && attr_valid_at(s, a, p) && (attr_value_start(
            s,
            a,
        ) matches Some(v) && p + a.len() < v <= e && value_end(s, v) == Some(e)),
{
    lemma_attr_value_start(s, a);
    lemma_attr_position_from(s, a, 0);
    if let Some(v) = attr_value_start(s, a) {
        lemma_value_end(s, v);
    }
}

proof fn lemma_blank_start(s: Seq<char>, p: int)
    requires
        0 <= p <= s.len(),
    ensures
        0 <= blank_start(s, p) <= p,
    decreases p,
{
    if p > 0 && (s[p - 1] == ' ' || s[p - 1] == '\t') {
        lemma_blank_start(s, p - 1);
    }
}

/// The position and value extent of the attribute `a` (chars).
fn attr_span_chars(tag: &[char], a: &[char]) -> (r: Option<(usize, usize)>)
    requires
        a@.len() > 0,
    ensures
        match r {
            Some((p, e)) => attr_span(tag@, a@) == Some((p as int, e as int)),
            None => attr_span(tag@, a@) is None,
        },
{
    proof {
        lemma_attr_span(tag@, a@);
        lemma_attr_value_start(tag@, a@);
    }
    match attr_value_start_chars(tag, a) {
        None => None,
        Some(v) => match value_end_chars(tag, v) {
            None => None,
            Some(e) => {
                let p = attr_position_chars(tag, a);
                match p {
                    Some(p) => Some((p, e)),
                    None => None,
                }
            },
        },
    }
}

fn insert_position_chars(tag: &[char]) -> (ip: usize)
    ensures
        ip == insert_position(tag@),
        ip <= tag@.len(),
{
    let close = vec!['/', '>'];
    let gt = vec!['>'];
    assert(close@ =~= seq!['/', '>']);
    assert(gt@ =~= seq!['>']);
    proof {
        lemma_last_match_bound(tag@, seq!['/', '>'], tag@.len() as int);
        lemma_last_match_bound(tag@, seq!['>'], tag@.len() as int);
    }
    match rfind_before(tag, &close, tag.len()) {
        Some(i) => i,
        None => match rfind_before(tag, &gt, tag.len()) {
            Some(i) => i,
            None => tag.len(),
        },
    }
}

pub proof fn lemma_last_match_bound(s: Seq<char>, pat: Seq<char>, hi: int)
    ensures
        last_match(s, pat, hi) matches Some(i) ==> 0 <= i && i + pat.len() <= hi <= s.len(),
    decreases hi,
{
    if hi - pat.len() < 0 || hi > s.len() {
    } else if matches_at(s, pat, hi - pat.len()) {
    } else if hi <= 0 {
    } else {
        lemma_last_match_bound(s, pat, hi - 1);
    }
}

/// `tag` with the attribute `a` set to `value` (chars).
pub fn replace_or_insert_attr_chars(tag: &[char], a: &[char], value: &[char]) -> (r: Vec<char>)
    requires
        a@.len() > 0,
    ensures
        r@ == replace_or_insert_attr(tag@, a@, value@),
{
    proof {
        lemma_attr_span(tag@, a@);
    }
    let mut out: Vec<char> = Vec::new();
    match attr_span_chars(tag, a) {
        Some((p, e)) => {
            push_range(&mut out, tag, 0, p);
            push_all(&mut out, a);
            out.push('=');
            out.push('"');
            push_escaped_attr(&mut out, value);
            out.push('"');
            push_range(&mut out, tag, e, tag.len());
            assert(out@ =~= replace_or_insert_attr(tag@, a@, value@));
        },
        None => {
            let ip = insert_position_chars(tag);
            let te = trim_end_pos(tag, 0, ip);
            push_range(&mut out, tag, 0, te);
            out.push(' ');
            push_all(&mut out, a);
            out.push('=');
            out.push('"');
            push_escaped_attr(&mut out, value);
            out.push('"');
            push_range(&mut out, tag, ip, tag.len());
            assert(tag@.subrange(0, ip as int) =~= tag@.take(ip as int));
            assert(out@ =~= replace_or_insert_attr(tag@, a@, value@));
        },
    }
    out
}

/// `tag` without the attribute `a` (chars).
pub fn remove_attr_chars(tag: &[char], a: &[char]) -> (r: Vec<char>)
    requires
        a@.len() > 0,
    ensures
        r@ == remove_attr(tag@, a@),
{
    proof {
        lemma_attr_span(tag@, a@);
    }
    match attr_span_chars(tag, a) {
        Some((p, e)) => {
            let mut rs = p;
            while rs > 0 && (tag[rs - 1] == ' ' || tag[rs - 1] == '\t')
                invariant
                    rs <= p <= tag@.len(),
                    blank_start(tag@, p as int) == blank_start(tag@, rs as int),
                decreases rs,
            {
                rs -= 1;
            }
            let mut out: Vec<char> = Vec::new();
            push_range(&mut out, tag, 0, rs);
            push_range(&mut out, tag, e, tag.len());
            assert(out@ =~= remove_attr(tag@, a@));
            out
        },
        None => {
            let mut out: Vec<char> = Vec::new();
            push_all(&mut out, tag);
            assert(out@ =~= tag@);
            out
        },
    }
}

/// `tag` with the attribute `attribute` set to `value`: rewritten in place as
/// `attribute="value"` when it has a complete value, else inserted before the
/// end of the tag.
pub fn replace_or_insert_xml_attribute(tag: &str, attribute: &str, value: &str) -> (r: String)
    requires
        attribute@.len() > 0,
    ensures
        r@ == replace_or_insert_attr(tag@, attribute@, value@),
{
    let t = chars_of(tag);
    let a = chars_of(attribute);
    let v = chars_of(value);
    string_from_chars(replace_or_insert_attr_chars(&t, &a, &v))
}

/// `tag` without the attribute `attribute` and the spaces and tabs before it.
pub fn remove_xml_attribute(tag: &str, attribute: &str) -> (r: String)
    requires
        attribute@.len() > 0,
    ensures
        r@ == remove_attr(tag@, attribute@),
{
    let t = chars_of(tag);
    let a = chars_of(attribute);
    string_from_chars(remove_attr_chars(&t, &a))
}

} // verus!
