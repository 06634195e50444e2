//! Scanning a document for start tags and element blocks.

use vstd::prelude::*;
use crate::text::{byte_len, byte_offset, trim, trim_range, push_all, chars_of, find_from, first_match, lemma_first_match, opt_int, string_from_chars,
    trim_end, trim_end_pos, copy_range};
use crate::xml::{
    unescape, unescape_range, close_pat, close_pattern, find_next_tag, lemma_next_tag, next_tag, open_pat, open_pattern,
};

verus! {

/// The views of a sequence of strings.
pub open spec fn string_views(v: Seq<String>) -> Seq<Seq<char>> {
    v.map_values(|x: String| x@)
}

/// The views of a sequence of character vectors.
pub open spec fn char_views(v: Seq<Vec<char>>) -> Seq<Seq<char>> {
    v.map_values(|x: Vec<char>| x@)
}

pub proof fn lemma_char_views_push(v: Seq<Vec<char>>, x: Vec<char>)
    ensures
        char_views(v.push(x)) == char_views(v).push(x@),
{
    assert(char_views(v.push(x)) =~= char_views(v).push(x@));
}

/// Converts character vectors into strings.
pub fn to_strings(v: Vec<Vec<char>>) -> (r: Vec<String>)
    ensures
        string_views(r@) == char_views(v@),
{
    let mut r: Vec<String> = Vec::new();
    let mut i: usize = 0;
    while i < v.len()
        invariant
            i <= v@.len(),
            string_views(r@) == char_views(v@.take(i as int)),
        decreases v@.len() - i,
    {
        let mut c: Vec<char> = Vec::new();
        push_all(&mut c, &v[i]);
        assert(c@ =~= v@[i as int]@);
        let ghost old_r = r@;
        let st = string_from_chars(c);
        r.push(st);
        assert(string_views(r@) =~= string_views(old_r).push(st@));
        assert(char_views(v@.take(i + 1)) =~= char_views(v@.take(i as int)).push(v@[i as int]@));
        assert(string_views(r@) =~= char_views(v@.take(i + 1)));
        i += 1;
    }
    assert(v@.take(i as int) =~= v@);
    r
}

// ---------------------------------------------------------------------------
// Start tags
// ---------------------------------------------------------------------------

/// The start tags `open…>` of `s` from `from` on, in order (see `next_tag`).
pub open spec fn tags_from(s: Seq<char>, open: Seq<char>, from: int) -> Seq<Seq<char>>
    decreases s.len() - from,
{
    if from < 0 {
        seq![]
    } else {
        match next_tag(s, open, from) {
            None => seq![],
            Some((t, e)) => {
                proof {
                    lemma_next_tag(s, open, from);
                }
                seq![s.subrange(t, e)] + tags_from(s, open, e)
            },
        }
    }
}

/// The start tags `<name…>` of `s`, in order.
pub open spec fn start_tags(s: Seq<char>, name: Seq<char>) -> Seq<Seq<char>> {
    tags_from(s, open_pat(name), 0)
}

/// The start tags `<name…>` of `s` (chars).
pub fn start_tags_chars(s: &[char], name: &[char]) -> (r: Vec<Vec<char>>)
    ensures
        char_views(r@) == start_tags(s@, name@),
{
    let open = open_pattern(name);
    let mut r: Vec<Vec<char>> = Vec::new();
    let mut pos: usize = 0;
    loop
        invariant
            open@ == open_pat(name@),
            char_views(r@) + tags_from(s@, open@, pos as int) == start_tags(s@, name@),
        decreases s@.len() - pos,
    {
        match find_next_tag(s, &open, pos) {
            None => {
                assert(char_views(r@) =~= char_views(r@) + tags_from(s@, open@, pos as int));
                return r;
            },
            Some((t, e)) => {
                proof {
                    lemma_next_tag(s@, open@, pos as int);
                }
                let tag = copy_range(s, t, e);
                proof {
                    lemma_char_views_push(r@, tag);
                }
                r.push(tag);
                assert(char_views(r@) + tags_from(s@, open@, e as int) =~= start_tags(s@, name@));
                pos = e;
            },
        }
    }
}

/// The start tags `<tag_name…>` of `xml_content`, in order.  A name followed by
/// neither whitespace, `>` nor `/` is a different element and is skipped; the scan
/// stops at a tag that has no `>`.
pub fn find_xml_start_tags(xml_content: &str, tag_name: &str) -> (r: Vec<String>)
    ensures
        string_views(r@) == start_tags(xml_content@, tag_name@),
{
    let s = chars_of(xml_content);
    let n = chars_of(tag_name);
    to_strings(start_tags_chars(&s, &n))
}

// ---------------------------------------------------------------------------
// Element blocks
// ---------------------------------------------------------------------------

/// The tag ends with `/>`, trailing whitespace aside.
pub open spec fn self_closing(tag: Seq<char>) -> bool {
    let t = trim_end(tag);
    t.len() >= 2 && t[t.len() - 2] == '/' && t[t.len() - 1] == '>'
}

pub fn is_self_closing(s: &[char], lo: usize, hi: usize) -> (b: bool)
    requires
        lo <= hi <= s@.len(),
    ensures
        b == self_closing(s@.subrange(lo as int, hi as int)),
{
    let te = trim_end_pos(s, lo, hi);
    te - lo >= 2 && s[te - 2] == '/' && s[te - 1] == '>'
}

/// The next element `<name …>…</name>` or `<name …/>` at or after `from`: the
/// start of its start tag, the end of its start tag, the start and the end of its
/// end tag (the last three equal for a self-closing element).  `None` when there
/// is no further start tag, or an element has no end tag.
pub open spec fn next_block(s: Seq<char>, name: Seq<char>, from: int) -> Option<
    (int, int, int, int),
> {
    match next_tag(s, open_pat(name), from) {
        None => None,
        Some((t, e)) => if self_closing(s.subrange(t, e)) {
            Some((t, e, e, e))
        } else {
            match first_match(s, close_pat(name), e) {
                None => None,
                Some(c) => Some((t, e, c, c + close_pat(name).len())),
            }
        },
    }
}

pub proof fn lemma_next_block(s: Seq<char>, name: Seq<char>, from: int)
    ensures
        next_block(s, name, from) matches Some((t, e, c, d)) ==> 0 <= from <= t && t < e <= c
            <= d <= s.len() && (c < d ==> d == c + close_pat(name).len() && s.subrange(c, d)
            == close_pat(name)),
{
    lemma_next_tag(s, open_pat(name), from);
    if let Some((t, e)) = next_tag(s, open_pat(name), from) {
        lemma_first_match(s, close_pat(name), e);
    }
}

/// The elements `<name…>` of `s` from `from` on, as (start tag, inner text) pairs.
pub open spec fn blocks_from(s: Seq<char>, name: Seq<char>, from: int) -> Seq<
    (Seq<char>, Seq<char>),
>
    decreases s.len() - from,
{
    if from < 0 {
        seq![]
    } else {
        match next_block(s, name, from) {
            None => seq![],
            Some((t, e, c, d)) => {
                proof {
                    lemma_next_block(s, name, from);
                }
                seq![(s.subrange(t, e), s.subrange(e, c))] + blocks_from(s, name, d)
            },
        }
    }
}

/// The elements `<name…>` of `s`, in order, as (start tag, inner text) pairs.
pub open spec fn element_blocks(s: Seq<char>, name: Seq<char>) -> Seq<(Seq<char>, Seq<char>)> {
    blocks_from(s, name, 0)
}

/// The views of (string, string) pairs.
pub open spec fn pair_views(v: Seq<(String, String)>) -> Seq<(Seq<char>, Seq<char>)> {
    v.map_values(|x: (String, String)| (x.0@, x.1@))
}

/// The views of (chars, chars) pairs.
pub open spec fn char_pair_views(v: Seq<(Vec<char>, Vec<char>)>) -> Seq<(Seq<char>, Seq<char>)> {
    v.map_values(|x: (Vec<char>, Vec<char>)| (x.0@, x.1@))
}

/// The next element block at or after `from` (chars).
pub fn find_next_block(s: &[char], name: &[char], from: usize) -> (r: Option<
    (usize, usize, usize, usize),
>)
    ensures
        match r {
            Some((t, e, c, d)) => next_block(s@, name@, from as int) == Some(
                (t as int, e as int, c as int, d as int),
            ),
            None => next_block(s@, name@, from as int) is None,
        },
{
    let open = open_pattern(name);
    let close = close_pattern(name);
    match find_next_tag(s, &open, from) {
        None => None,
        Some((t, e)) => {
            proof {
                lemma_next_tag(s@, open@, from as int);
            }
            if is_self_closing(s, t, e) {
                Some((t, e, e, e))
            } else {
                match find_from(s, &close, e) {
                    None => None,
                    Some(c) => {
                        proof {
                            lemma_first_match(s@, close@, e as int);
                        }
                        let slen = s.len();
                        Some((t, e, c, c + close.len()))
                    },
                }
            }
        },
    }
}

/// The elements `<name…>` of `s` (chars).
pub fn element_blocks_chars(s: &[char], name: &[char]) -> (r: Vec<(Vec<char>, Vec<char>)>)
    ensures
        char_pair_views(r@) == element_blocks(s@, name@),
{
    let mut r: Vec<(Vec<char>, Vec<char>)> = Vec::new();
    let mut pos: usize = 0;
    loop
        invariant
            char_pair_views(r@) + blocks_from(s@, name@, pos as int) == element_blocks(s@, name@),
        decreases s@.len() - pos,
    {
        match find_next_block(s, name, pos) {
            None => {
                assert(char_pair_views(r@) =~= char_pair_views(r@) + blocks_from(
                    s@,
                    name@,
                    pos as int,
                ));
                return r;
            },
            Some((t, e, c, d)) => {
                proof {
                    lemma_next_block(s@, name@, pos as int);
                }
                let tag = copy_range(s, t, e);
                let inner = copy_range(s, e, c);
                let ghost old_r = r@;
                r.push((tag, inner));
                assert(char_pair_views(r@) =~= char_pair_views(old_r).push((tag@, inner@)));
                assert(char_pair_views(r@) + blocks_from(s@, name@, d as int) =~= element_blocks(
                    s@,
                    name@,
                ));
                pos = d;
            },
        }
    }
}

/// The elements `<tag_name…>` of `xml_content`, in order, as (start tag, inner
/// text) pairs; a self-closing element has empty inner text.  The scan stops at a
/// start tag without `>` or an element without its end tag.
pub fn find_xml_element_blocks(xml_content: &str, tag_name: &str) -> (r: Vec<(String, String)>)
    ensures
        pair_views(r@) == element_blocks(xml_content@, tag_name@),
{
    let s = chars_of(xml_content);
    let n = chars_of(tag_name);
    let blocks = element_blocks_chars(&s, &n);
    let mut r: Vec<(String, String)> = Vec::new();
    let mut i: usize = 0;
    while i < blocks.len()
        invariant
            i <= blocks@.len(),
            pair_views(r@) == char_pair_views(blocks@.take(i as int)),
        decreases blocks@.len() - i,
    {
        let mut a: Vec<char> = Vec::new();
        push_all(&mut a, &blocks[i].0);
        let mut b: Vec<char> = Vec::new();
        push_all(&mut b, &blocks[i].1);
        assert(a@ =~= blocks@[i as int].0@);
        assert(b@ =~= blocks@[i as int].1@);
        let ghost old_r = r@;
        let sa = string_from_chars(a);
        let sb = string_from_chars(b);
        r.push((sa, sb));
        assert(pair_views(r@) =~= pair_views(old_r).push((sa@, sb@)));
        assert(char_pair_views(blocks@.take(i + 1)) =~= char_pair_views(blocks@.take(i as int)).push(
            (blocks@[i as int].0@, blocks@[i as int].1@),
        ));
        assert(pair_views(r@) =~= char_pair_views(blocks@.take(i + 1)));
        i += 1;
    }
    assert(blocks@.take(i as int) =~= blocks@);
    r
}

// ---------------------------------------------------------------------------
// The first element with content
// ---------------------------------------------------------------------------

/// The first element `<name…>…</name>` at or after `from` that is not
/// self-closing: its start, the end of its start tag, the start and the end of its
/// end tag.  `None` when a start tag has no `>` or the element no end tag.
pub open spec fn first_range_from(s: Seq<char>, name: Seq<char>, from: int) -> Option<
    (int, int, int, int),
>
    decreases s.len() - from,
{
    if from < 0 {
        None
    } else {
        match next_tag(s, open_pat(name), from) {
            None => None,
            Some((t, e)) => if self_closing(s.subrange(t, e)) {
                proof {
                    lemma_next_tag(s, open_pat(name), from);
                }
                first_range_from(s, name, e)
            } else {
                match first_match(s, close_pat(name), e) {
                    None => None,
                    Some(c) => Some((t, e, c, c + close_pat(name).len())),
                }
            },
        }
    }
}

pub proof fn lemma_first_range_from(s: Seq<char>, name: Seq<char>, from: int)
    ensures
        first_range_from(s, name, from) matches Some((t, e, c, d)) ==> 0 <= from <= t && t < e
            <= c && d == c + close_pat(name).len() && d <= s.len() && s.subrange(c, d)
            == close_pat(name),
    decreases s.len() - from,
{
    if from >= 0 {
        lemma_next_tag(s, open_pat(name), from);
        if let Some((t, e)) = next_tag(s, open_pat(name), from) {
            if self_closing(s.subrange(t, e)) {
                lemma_first_range_from(s, name, e);
            } else {
                lemma_first_match(s, close_pat(name), e);
            }
        }
    }
}

/// The first element `<name…>…</name>` of `content` that is not self-closing:
/// the start of its start tag, the end of its start tag, the start and the end of
/// its end tag (character indices).
pub fn element_range_chars(content: &[char], name: &[char]) -> (r: Option<
    (usize, usize, usize, usize),
>)
    ensures
        match r {
            Some((t, e, c, d)) => first_range_from(content@, name@, 0) == Some(
                (t as int, e as int, c as int, d as int),
            ),
            None => first_range_from(content@, name@, 0) is None,
        },
{
    let open = open_pattern(name);
    let close = close_pattern(name);
    let mut pos: usize = 0;
    loop
        invariant
            open@ == open_pat(name@),
            close@ == close_pat(name@),
            first_range_from(content@, name@, 0) == first_range_from(content@, name@, pos as int),
        decreases content@.len() - pos,
    {
        match find_next_tag(content, &open, pos) {
            None => {
                return None;
            },
            Some((t, e)) => {
                proof {
                    lemma_next_tag(content@, open@, pos as int);
                }
                if is_self_closing(content, t, e) {
                    pos = e;
                } else {
                    match find_from(content, &close, e) {
                        None => {
                            return None;
                        },
                        Some(c) => {
                            proof {
                                lemma_first_match(content@, close@, e as int);
                            }
                            let slen = content.len();
                            return Some((t, e, c, c + close.len()));
                        },
                    }
                }
            },
        }
    }
}


// ---------------------------------------------------------------------------
// Child element values
// ---------------------------------------------------------------------------

/// The decoded, trimmed, non-empty texts of the elements `<name>…</name>` of `s`
/// from `from` on.  A start tag is closed by the first `</name>` after it,
/// self-closing or not; the scan stops at a start tag without `>` or end tag.
pub open spec fn child_values_from(s: Seq<char>, name: Seq<char>, from: int) -> Seq<Seq<char>>
    decreases s.len() - from,
{
    if from < 0 {
        seq![]
    } else {
        match next_tag(s, open_pat(name), from) {
            None => seq![],
            Some((t, e)) => match first_match(s, close_pat(name), e) {
                None => seq![],
                Some(c) => {
                    proof {
                        lemma_next_tag(s, open_pat(name), from);
                        lemma_first_match(s, close_pat(name), e);
                    }
                    let v = unescape(trim(s.subrange(e, c)));
                    if v.len() > 0 {
                        seq![v] + child_values_from(s, name, c + close_pat(name).len())
                    } else {
                        child_values_from(s, name, c + close_pat(name).len())
                    }
                },
            },
        }
    }
}

/// The values of the child elements `<name>` of `s` (chars).
pub fn child_values_chars(s: &[char], name: &[char]) -> (r: Vec<Vec<char>>)
    ensures
        char_views(r@) == child_values_from(s@, name@, 0),
{
    let open = open_pattern(name);
    let close = close_pattern(name);
    let slen = s.len();
    let mut r: Vec<Vec<char>> = Vec::new();
    let mut pos: usize = 0;
    loop
        invariant
            slen == s@.len(),
            open@ == open_pat(name@),
            close@ == close_pat(name@),
            char_views(r@) + child_values_from(s@, name@, pos as int) == child_values_from(
                s@,
                name@,
                0,
            ),
        decreases s@.len() - pos,
    {
        match find_next_tag(s, &open, pos) {
            None => {
                assert(char_views(r@) =~= char_views(r@) + child_values_from(s@, name@, pos as int));
                return r;
            },
            Some((t, e)) => {
                proof {
                    lemma_next_tag(s@, open@, pos as int);
                }
                match find_from(s, &close, e) {
                    None => {
                        assert(char_views(r@) =~= char_views(r@) + child_values_from(
                            s@,
                            name@,
                            pos as int,
                        ));
                        return r;
                    },
                    Some(c) => {
                        proof {
                            lemma_first_match(s@, close@, e as int);
                        }
                        let (a, b) = trim_range(s, e, c);
                        let v = unescape_range(s, a, b);
                        if v.len() > 0 {
                            proof {
                                lemma_char_views_push(r@, v);
                            }
                            r.push(v);
                        }
                        assert(char_views(r@) + child_values_from(s@, name@, c + close@.len())
                            =~= child_values_from(s@, name@, 0));
                        pos = c + close.len();
                    },
                }
            },
        }
    }
}

/// The decoded, trimmed, non-empty texts of the child elements `<element_name>`
/// of `content`, in order.
pub fn collect_xml_child_element_values(content: &str, element_name: &str) -> (r: Vec<String>)
    ensures
        string_views(r@) == child_values_from(content@, element_name@, 0),
{
    let s = chars_of(content);
    let n = chars_of(element_name);
    to_strings(child_values_chars(&s, &n))
}

/// The first element `<name…>…</name>` of `content` that is not self-closing,
/// as byte offsets: the start of its start tag, the end of its start tag, the
/// start and the end of its end tag (see `element_range_chars`).
pub fn first_xml_element_range(content: &str, name: &str) -> (r: Option<(usize, usize, usize, usize)>)
    requires
        byte_len(content@) <= usize::MAX,
    ensures
        match first_range_from(content@, name@, 0) {
            Some((t, e, c, d)) => r == Some(
                (
                    byte_len(content@.take(t)) as usize,
                    byte_len(content@.take(e)) as usize,
                    byte_len(content@.take(c)) as usize,
                    byte_len(content@.take(d)) as usize,
                ),
            ),
            None => r is None,
        },
{
    let s = chars_of(content);
    let n = chars_of(name);
    proof {
        lemma_first_range_from(s@, n@, 0);
    }
    match element_range_chars(&s, &n) {
        None => None,
        Some((t, e, c, d)) => Some(
            (byte_offset(&s, t), byte_offset(&s, e), byte_offset(&s, c), byte_offset(&s, d)),
        ),
    }
}

} // verus!
