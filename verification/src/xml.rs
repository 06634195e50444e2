//! A small, position-preserving XML toolkit: start tags, attributes, element
//! blocks and the entity escaping used by template and project files.
//!
//! Nothing here parses XML into a tree: every function scans the text the way
//! the editor's file formats need it and leaves everything else untouched.

use vstd::prelude::*;
use crate::text::{
    find_char_from, find_from, first_match, is_whitespace, is_ws, lemma_first_match, matches_at,
    opt_int, push_all, chars_of, copy_range, matches_at_exec, string_from_chars,
};

verus! {

// ---------------------------------------------------------------------------
// Name boundaries and tag patterns
// ---------------------------------------------------------------------------

/// The character at `i`, if any.
pub open spec fn char_at(s: Seq<char>, i: int) -> Option<char> {
    if 0 <= i < s.len() {
        Some(s[i])
    } else {
        None
    }
}

/// A character that may end an element name: whitespace, `>` or `/`.
pub open spec fn name_boundary(ch: Option<char>) -> bool {
    match ch {
        Some(c) => is_ws(c) || c == '>' || c == '/',
        None => false,
    }
}

/// Whether `ch` ends an element name (whitespace, `>` or `/`).
pub fn is_xml_name_boundary(ch: Option<char>) -> (b: bool)
    ensures
        b == name_boundary(ch),
{
    match ch {
        Some(c) => is_whitespace(c) || c == '>' || c == '/',
        None => false,
    }
}

/// `<name`
pub open spec fn open_pat(name: Seq<char>) -> Seq<char> {
    seq!['<'] + name
}

/// `</name>`
pub open spec fn close_pat(name: Seq<char>) -> Seq<char> {
    seq!['<', '/'] + name + seq!['>']
}

/// Builds `<name`.
pub fn open_pattern(name: &[char]) -> (v: Vec<char>)
    ensures
        v@ == open_pat(name@),
{
    let mut v = vec!['<'];
    push_all(&mut v, name);
    v
}

/// Builds `</name>`.
pub fn close_pattern(name: &[char]) -> (v: Vec<char>)
    ensures
        v@ == close_pat(name@),
{
    let mut v = vec!['<', '/'];
    push_all(&mut v, name);
    v.push('>');
    assert(v@ =~= close_pat(name@));
    v
}

/// The first occurrence of `open` at or after `from` that is followed by a name
/// boundary.  Occurrences not followed by a boundary are stepped over by their
/// whole length, as the scanners of this module do.
pub open spec fn tag_candidate(s: Seq<char>, open: Seq<char>, from: int) -> Option<int>
    decreases s.len() - from,
{
    if from < 0 || open.len() == 0 {
        None
    } else {
        match first_match(s, open, from) {
            None => None,
            Some(t) => if name_boundary(char_at(s, t + open.len())) {
                Some(t)
            } else {
                proof {
                    lemma_first_match(s, open, from);
                }
                tag_candidate(s, open, t + open.len())
            },
        }
    }
}

/// The next start tag `open…>` at or after `from`: its start and the position
/// just past its `>`.  `None` when there is no further candidate, or when the
/// candidate has no `>` after it.
pub open spec fn next_tag(s: Seq<char>, open: Seq<char>, from: int) -> Option<(int, int)> {
    match tag_candidate(s, open, from) {
        None => None,
        Some(t) => match first_match(s, seq!['>'], t) {
            None => None,
            Some(g) => Some((t, g + 1)),
        },
    }
}

pub proof fn lemma_tag_candidate(s: Seq<char>, open: Seq<char>, from: int)
    ensures
        tag_candidate(s, open, from) matches Some(t) ==> from <= t && matches_at(s, open, t)
            && name_boundary(char_at(s, t + open.len())) && t + open.len() <= s.len(),
    decreases s.len() - from,
{
    if from >= 0 && open.len() > 0 {
        lemma_first_match(s, open, from);
        match first_match(s, open, from) {
            None => {},
            Some(t) => {
                if !name_boundary(char_at(s, t + open.len())) {
                    lemma_tag_candidate(s, open, t + open.len());
                }
            },
        }
    }
}

pub proof fn lemma_next_tag(s: Seq<char>, open: Seq<char>, from: int)
    ensures
        next_tag(s, open, from) matches Some((t, e)) ==> 0 <= from <= t && t < e <= s.len()
            && t + open.len() <= s.len() && matches_at(s, open, t) && s[e - 1] == '>'
            && name_boundary(char_at(s, t + open.len())),
{
    lemma_tag_candidate(s, open, from);
    if let Some(t) = tag_candidate(s, open, from) {
        lemma_first_match(s, seq!['>'], t);
        if let Some(g) = first_match(s, seq!['>'], t) {
            assert(s.subrange(g, g + 1)[0] == s[g]);
        }
    }
}

/// The first occurrence at or after `from` of `open` followed by a name boundary.
pub fn find_tag_candidate(s: &[char], open: &[char], from: usize) -> (r: Option<usize>)
    ensures
        opt_int(r) == tag_candidate(s@, open@, from as int),
{
    if open.len() == 0 {
        return None;
    }
    let slen = s.len();
    let mut i = from;
    loop
        invariant
            slen == s@.len(),
            open@.len() > 0,
            from <= i,
            tag_candidate(s@, open@, from as int) == tag_candidate(s@, open@, i as int),
        decreases s@.len() - i,
    {
        match find_from(s, open, i) {
            None => {
                return None;
            },
            Some(t) => {
                proof {
                    lemma_first_match(s@, open@, i as int);
                }
                let after = if t + open.len() < s.len() {
                    Some(s[t + open.len()])
                } else {
                    None
                };
                if is_xml_name_boundary(after) {
                    return Some(t);
                }
                i = t + open.len();
            },
        }
    }
}

/// The next start tag `open…>` at or after `from`: its start and the position just
/// past its `>`.
pub fn find_next_tag(s: &[char], open: &[char], from: usize) -> (r: Option<(usize, usize)>)
    ensures
        match r {
            Some((t, e)) => next_tag(s@, open@, from as int) == Some((t as int, e as int)),
            None => next_tag(s@, open@, from as int) is None,
        },
{
    match find_tag_candidate(s, open, from) {
        None => None,
        Some(t) => match find_char_from(s, '>', t) {
            None => None,
            Some(g) => {
                proof {
                    lemma_first_match(s@, seq!['>'], t as int);
                }
                let slen = s.len();
                assert(g < slen);
                Some((t, g + 1))
            },
        },
    }
}

} // verus!

verus! {

// ---------------------------------------------------------------------------
// Whitespace runs
// ---------------------------------------------------------------------------

/// The first position at or after `i` that does not hold whitespace.
pub open spec fn ws_end(s: Seq<char>, i: int) -> int
    decreases s.len() - i,
{
    if 0 <= i < s.len() && is_ws(s[i]) {
        ws_end(s, i + 1)
    } else {
        i
    }
}

pub proof fn lemma_ws_end(s: Seq<char>, i: int)
    requires
        0 <= i <= s.len(),
    ensures
        i <= ws_end(s, i) <= s.len(),
        forall|k: int| i <= k < ws_end(s, i) ==> is_ws(#[trigger] s[k]),
        ws_end(s, i) < s.len() ==> !is_ws(s[ws_end(s, i)]),
    decreases s.len() - i,
{
    if i < s.len() && is_ws(s[i]) {
        lemma_ws_end(s, i + 1);
    }
}

/// The first position at or after `i` that does not hold whitespace.
pub fn skip_whitespace(s: &[char], i: usize) -> (j: usize)
    requires
        i <= s@.len(),
    ensures
        j == ws_end(s@, i as int),
        i <= j <= s@.len(),
{
    let mut j = i;
    while j < s.len() && is_whitespace(s[j])
        invariant
            i <= j <= s@.len(),
            ws_end(s@, i as int) == ws_end(s@, j as int),
        decreases s@.len() - j,
    {
        j += 1;
    }
    j
}

// ---------------------------------------------------------------------------
// Entities
// ---------------------------------------------------------------------------

pub open spec fn ent_amp() -> Seq<char> {
    seq!['&', 'a', 'm', 'p', ';']
}

pub open spec fn ent_quot() -> Seq<char> {
    seq!['&', 'q', 'u', 'o', 't', ';']
}

pub open spec fn ent_apos() -> Seq<char> {
    seq!['&', 'a', 'p', 'o', 's', ';']
}

pub open spec fn ent_lt() -> Seq<char> {
    seq!['&', 'l', 't', ';']
}

pub open spec fn ent_gt() -> Seq<char> {
    seq!['&', 'g', 't', ';']
}

/// `p` is a prefix of `s`.
pub open spec fn starts_with(s: Seq<char>, p: Seq<char>) -> bool {
    p.len() <= s.len() && s.take(p.len() as int) == p
}

/// How one character is written inside a double-quoted attribute value.
pub open spec fn escape_attr_char(c: char) -> Seq<char> {
    if c == '&' {
        ent_amp()
    } else if c == '"' {
        ent_quot()
    } else if c == '<' {
        ent_lt()
    } else if c == '>' {
        ent_gt()
    } else {
        seq![c]
    }
}

/// How one character is written as element text.
pub open spec fn escape_text_char(c: char) -> Seq<char> {
    if c == '&' {
        ent_amp()
    } else if c == '<' {
        ent_lt()
    } else if c == '>' {
        ent_gt()
    } else {
        seq![c]
    }
}

/// `value` escaped for a double-quoted attribute: `&`, `"`, `<` and `>` become
/// entities, every other character stays.
pub open spec fn escape_attr(s: Seq<char>) -> Seq<char>
    decreases s.len(),
{
    if s.len() == 0 {
        s
    } else {
        escape_attr_char(s[0]) + escape_attr(s.drop_first())
    }
}

/// `value` escaped for element text: `&`, `<` and `>` become entities.
pub open spec fn escape_text(s: Seq<char>) -> Seq<char>
    decreases s.len(),
{
    if s.len() == 0 {
        s
    } else {
        escape_text_char(s[0]) + escape_text(s.drop_first())
    }
}

/// Entity decoding of `&quot;`, `&apos;`, `&lt;`, `&gt;` and `&amp;`, left to
/// right; any other text, including other `&` sequences, stays.
pub open spec fn unescape(s: Seq<char>) -> Seq<char>
    decreases s.len(),
{
    if s.len() == 0 {
        s
    } else if starts_with(s, ent_quot()) {
        seq!['"'] + unescape(s.skip(6))
    } else if starts_with(s, ent_apos()) {
        seq!['\''] + unescape(s.skip(6))
    } else if starts_with(s, ent_lt()) {
        seq!['<'] + unescape(s.skip(4))
    } else if starts_with(s, ent_gt()) {
        seq!['>'] + unescape(s.skip(4))
    } else if starts_with(s, ent_amp()) {
        seq!['&'] + unescape(s.skip(5))
    } else {
        seq![s[0]] + unescape(s.drop_first())
    }
}

fn push_escaped_attr_char(out: &mut Vec<char>, c: char)
    ensures
        final(out)@ == old(out)@ + escape_attr_char(c),
{
    if c == '&' {
        out.push('&'); out.push('a'); out.push('m'); out.push('p'); out.push(';');
    } else if c == '"' {
        out.push('&'); out.push('q'); out.push('u'); out.push('o'); out.push('t'); out.push(';');
    } else if c == '<' {
        out.push('&'); out.push('l'); out.push('t'); out.push(';');
    } else if c == '>' {
        out.push('&'); out.push('g'); out.push('t'); out.push(';');
    } else {
        out.push(c);
    }
    assert(out@ =~= old(out)@ + escape_attr_char(c));
}

fn push_escaped_text_char(out: &mut Vec<char>, c: char)
    ensures
        final(out)@ == old(out)@ + escape_text_char(c),
{
    if c == '&' {
        out.push('&'); out.push('a'); out.push('m'); out.push('p'); out.push(';');
    } else if c == '<' {
        out.push('&'); out.push('l'); out.push('t'); out.push(';');
    } else if c == '>' {
        out.push('&'); out.push('g'); out.push('t'); out.push(';');
    } else {
        out.push(c);
    }
    assert(out@ =~= old(out)@ + escape_text_char(c));
}

/// Appends `s` escaped for a double-quoted attribute value.
pub fn push_escaped_attr(out: &mut Vec<char>, s: &[char])
    ensures
        final(out)@ == old(out)@ + escape_attr(s@),
{
    let ghost start = out@;
    let mut i: usize = 0;
    assert(s@.skip(0) =~= s@);
    while i < s.len()
        invariant
            i <= s@.len(),
            out@ + escape_attr(s@.skip(i as int)) == start + escape_attr(s@),
        decreases s@.len() - i,
    {
        let ghost before = out@;
        push_escaped_attr_char(out, s[i]);
        assert(s@.skip(i as int).drop_first() =~= s@.skip(i + 1));
        assert(out@ + escape_attr(s@.skip(i + 1)) =~= before + escape_attr(s@.skip(i as int)));
        i += 1;
    }
    assert(s@.skip(i as int).len() == 0);
    assert(out@ =~= start + escape_attr(s@));
}

/// Appends `s` escaped for element text.
pub fn push_escaped_text(out: &mut Vec<char>, s: &[char])
    ensures
        final(out)@ == old(out)@ + escape_text(s@),
{
    let ghost start = out@;
    let mut i: usize = 0;
    assert(s@.skip(0) =~= s@);
    while i < s.len()
        invariant
            i <= s@.len(),
            out@ + escape_text(s@.skip(i as int)) == start + escape_text(s@),
        decreases s@.len() - i,
    {
        let ghost before = out@;
        push_escaped_text_char(out, s[i]);
        assert(s@.skip(i as int).drop_first() =~= s@.skip(i + 1));
        assert(out@ + escape_text(s@.skip(i + 1)) =~= before + escape_text(s@.skip(i as int)));
        i += 1;
    }
    assert(s@.skip(i as int).len() == 0);
    assert(out@ =~= start + escape_text(s@));
}

/// `value` escaped for a double-quoted attribute value.
pub fn escape_xml_attribute(value: &str) -> (r: String)
    ensures
        r@ == escape_attr(value@),
{
    let v = chars_of(value);
    let mut out: Vec<char> = Vec::new();
    push_escaped_attr(&mut out, &v);
    assert(out@ =~= escape_attr(value@));
    string_from_chars(out)
}

/// `value` escaped for element text.
pub fn escape_xml_text(value: &str) -> (r: String)
    ensures
        r@ == escape_text(value@),
{
    let v = chars_of(value);
    let mut out: Vec<char> = Vec::new();
    push_escaped_text(&mut out, &v);
    assert(out@ =~= escape_text(value@));
    string_from_chars(out)
}

fn starts_with_at(s: &[char], i: usize, p: &[char]) -> (b: bool)
    requires
        i <= s@.len(),
    ensures
        b == starts_with(s@.skip(i as int), p@),
{
    let b = matches_at_exec(s, p, i);
    proof {
        if p@.len() <= s@.skip(i as int).len() {
            assert(s@.skip(i as int).take(p@.len() as int) =~= s@.subrange(
                i as int,
                i + p@.len(),
            ));
        }
    }
    b
}

/// The entity-decoded text of `s[lo..hi]`.
pub fn unescape_range(s: &[char], lo: usize, hi: usize) -> (r: Vec<char>)
    requires
        lo <= hi <= s@.len(),
    ensures
        r@ == unescape(s@.subrange(lo as int, hi as int)),
{
    let t = copy_range(s, lo, hi);
    let quot = vec!['&', 'q', 'u', 'o', 't', ';'];
    let apos = vec!['&', 'a', 'p', 'o', 's', ';'];
    let lt = vec!['&', 'l', 't', ';'];
    let gt = vec!['&', 'g', 't', ';'];
    let amp = vec!['&', 'a', 'm', 'p', ';'];
    assert(quot@ =~= ent_quot());
    assert(apos@ =~= ent_apos());
    assert(lt@ =~= ent_lt());
    assert(gt@ =~= ent_gt());
    assert(amp@ =~= ent_amp());
    let mut out: Vec<char> = Vec::new();
    let mut i: usize = 0;
    assert(t@.skip(0) =~= t@);
    while i < t.len()
        invariant
            i <= t@.len(),
            quot@ == ent_quot(),
            apos@ == ent_apos(),
            lt@ == ent_lt(),
            gt@ == ent_gt(),
            amp@ == ent_amp(),
            out@ + unescape(t@.skip(i as int)) == unescape(t@),
        decreases t@.len() - i,
    {
        let ghost rest = t@.skip(i as int);
        let ghost before = out@;
        if starts_with_at(&t, i, &quot) {
            out.push('"');
            assert(rest.skip(6) =~= t@.skip(i + 6));
            i += 6;
        } else if starts_with_at(&t, i, &apos) {
            out.push('\'');
            assert(rest.skip(6) =~= t@.skip(i + 6));
            i += 6;
        } else if starts_with_at(&t, i, &lt) {
            out.push('<');
            assert(rest.skip(4) =~= t@.skip(i + 4));
            i += 4;
        } else if starts_with_at(&t, i, &gt) {
            out.push('>');
            assert(rest.skip(4) =~= t@.skip(i + 4));
            i += 4;
        } else if starts_with_at(&t, i, &amp) {
            out.push('&');
            assert(rest.skip(5) =~= t@.skip(i + 5));
            i += 5;
        } else {
            out.push(t[i]);
            assert(rest.drop_first() =~= t@.skip(i + 1));
            i += 1;
        }
        assert(out@ + unescape(t@.skip(i as int)) =~= before + unescape(rest));
    }
    assert(t@.skip(i as int).len() == 0);
    assert(out@ =~= unescape(t@));
    out
}

/// `value` with `&quot;`, `&apos;`, `&lt;`, `&gt;` and `&amp;` decoded.
pub fn unescape_xml_value(value: &str) -> (r: String)
    ensures
        r@ == unescape(value@),
{
    let v = chars_of(value);
    let out = unescape_range(&v, 0, v.len());
    assert(v@.subrange(0, v@.len() as int) =~= value@);
    string_from_chars(out)
}

} // verus!
