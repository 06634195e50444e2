//! Editing the content of `<area>` elements: removing child elements and
//! collecting the generated paths recorded for an asset.

use vstd::prelude::*;
use crate::text::{
    chars_of, first_match, lemma_first_match, push_all, push_range, string_from_chars,
    trim, trim_range, copy_range, find_from, find_char_from,
};
use crate::xml::{
    char_at, close_pat, close_pattern, find_next_tag, is_xml_name_boundary, lemma_next_tag,
    name_boundary, next_tag, open_pat, open_pattern,
};
use crate::attr::{attr_value, attr_value_chars};
use crate::scan::{
    char_views, child_values_chars, child_values_from, is_self_closing, lemma_char_views_push,
    self_closing, start_tags, start_tags_chars, string_views, to_strings,
};
use crate::edit::{
    area_name, asset_id_name, asset_name, chars_eq, contains_chars, generatepath_name, id_name,
    lemma_blank_end, lemma_contains_push, removal_end, removal_start, line_start, indent_only,
    blank_end,
};

verus! {

// ---------------------------------------------------------------------------
// Removing child elements
// ---------------------------------------------------------------------------

/// `s` without its elements `<name>…</name>` (each with its line when it stands
/// alone there), removed one by one from the start.  Removal stops at the first
/// `<name` that is not followed by a name boundary, or whose element has no `>` or
/// no end tag.
#[verifier::opaque]
pub open spec fn remove_children(s: Seq<char>, name: Seq<char>) -> Seq<char>
    decreases s.len(),
{
    let open = open_pat(name);
    match first_match(s, open, 0) {
        None => s,
        Some(t) => if !name_boundary(char_at(s, t + open.len())) {
            s
        } else {
            match first_match(s, seq!['>'], t) {
                None => s,
                Some(g) => match first_match(s, close_pat(name), g + 1) {
                    None => s,
                    Some(c) => {
                        proof {
                            lemma_child_bounds(s, name, t, g, c);
                        }
                        let ee = c + close_pat(name).len();
                        remove_children(
                            s.take(removal_start(s, t)) + s.skip(removal_end(s, ee)),
                            name,
                        )
                    },
                },
            }
        },
    }
}

pub proof fn lemma_child_bounds(s: Seq<char>, name: Seq<char>, t: int, g: int, c: int)
    requires
        first_match(s, open_pat(name), 0) == Some(t),
        first_match(s, seq!['>'], t) == Some(g),
        first_match(s, close_pat(name), g + 1) == Some(c),
    ensures
        0 <= removal_start(s, t) <= t < g < c + close_pat(name).len() <= removal_end(
            s,
            c + close_pat(name).len(),
        ) <= s.len(),
{
    lemma_first_match(s, open_pat(name), 0);
    lemma_first_match(s, seq!['>'], t);
    lemma_first_match(s, close_pat(name), g + 1);
    crate::edit::lemma_removal_bounds(s, name, t);
    lemma_blank_end(s, c + close_pat(name).len());
}

fn removal_span_of(s: &[char], t: usize, ee: usize) -> (r: (usize, usize))
    requires
        t < ee <= s@.len(),
    ensures
        r.0 == removal_start(s@, t as int),
        r.1 == removal_end(s@, ee as int),
{
    crate::edit::removal_span(s, t, ee)
}

/// `content` without its child elements `<name>…</name>` (chars).
pub fn remove_children_chars(content: &[char], name: &[char]) -> (r: Vec<char>)
    ensures
        r@ == remove_children(content@, name@),
{
    reveal(remove_children);
    let open = open_pattern(name);
    let close = close_pattern(name);
    let mut out: Vec<char> = Vec::new();
    push_all(&mut out, content);
    assert(out@ =~= content@);
    loop
        invariant
            open@ == open_pat(name@),
            close@ == close_pat(name@),
            remove_children(out@, name@) == remove_children(content@, name@),
        decreases out@.len(),
    {
        proof {
            reveal(remove_children);
        }
        let olen = out.len();
        match find_from(&out, &open, 0) {
            None => {
                return out;
            },
            Some(t) => {
                proof {
                    lemma_first_match(out@, open@, 0);
                }
                let after = if t + open.len() < out.len() {
                    Some(out[t + open.len()])
                } else {
                    None
                };
                if !is_xml_name_boundary(after) {
                    return out;
                }
                match find_char_from(&out, '>', t) {
                    None => {
                        return out;
                    },
                    Some(g) => {
                        proof {
                            lemma_first_match(out@, seq!['>'], t as int);
                        }
                        match find_from(&out, &close, g + 1) {
                            None => {
                                return out;
                            },
                            Some(c) => {
                                proof {
                                    lemma_child_bounds(out@, name@, t as int, g as int, c as int);
                                }
                                let ee = c + close.len();
                                let (rs, re) = removal_span_of(&out, t, ee);
                                let mut next: Vec<char> = Vec::new();
                                push_range(&mut next, &out, 0, rs);
                                push_range(&mut next, &out, re, out.len());
                                assert(next@ =~= out@.take(rs as int) + out@.skip(re as int));
                                out = next;
                            },
                        }
                    },
                }
            },
        }
    }
}

/// `content` without its child elements `<element_name>…</element_name>`.
pub fn remove_xml_child_element(content: &str, element_name: &str) -> (r: String)
    ensures
        r@ == remove_children(content@, element_name@),
{
    let s = chars_of(content);
    let n = chars_of(element_name);
    string_from_chars(remove_children_chars(&s, &n))
}


/// Prepends text and a flag to the result of a scan.
pub open spec fn prefixed2(prefix: Seq<char>, m0: bool, r: Option<(Seq<char>, bool)>) -> Option<
    (Seq<char>, bool),
> {
    match r {
        None => None,
        Some((rest, m)) => Some((prefix + rest, m0 || m)),
    }
}

pub proof fn lemma_prefixed2_assoc(
    a: Seq<char>,
    m0: bool,
    b: Seq<char>,
    m1: bool,
    r: Option<(Seq<char>, bool)>,
)
    ensures
        prefixed2(a, m0, prefixed2(b, m1, r)) == prefixed2(a + b, m0 || m1, r),
{
    if let Some((rest, m)) = r {
        assert(a + (b + rest) =~= (a + b) + rest);
    }
}

/// `s` from `from` on with the child elements `<name>` removed from every
/// `<area>` of the asset `id`; with whether there was such an area.  `None` when
/// such an area, not self-closing, has no end tag.
pub open spec fn strip_area_children_from(
    s: Seq<char>,
    id: Seq<char>,
    name: Seq<char>,
    from: int,
) -> Option<(Seq<char>, bool)>
    decreases s.len() - from,
{
    if from < 0 || from > s.len() {
        Some((seq![], false))
    } else {
        match next_tag(s, open_pat(area_name()), from) {
            None => Some((s.skip(from), false)),
            Some((t, e)) => {
                proof {
                    lemma_next_tag(s, open_pat(area_name()), from);
                }
                let tag = s.subrange(t, e);
                if attr_value(tag, asset_id_name()) != Some(id) {
                    prefixed2(s.subrange(from, e), false, strip_area_children_from(s, id, name, e))
                } else if self_closing(tag) {
                    prefixed2(s.subrange(from, e), true, strip_area_children_from(s, id, name, e))
                } else {
                    match first_match(s, close_pat(area_name()), e) {
                        None => None,
                        Some(c) => {
                            proof {
                                lemma_first_match(s, close_pat(area_name()), e);
                            }
                            prefixed2(
                                s.subrange(from, e) + remove_children(s.subrange(e, c), name)
                                    + close_pat(area_name()),
                                true,
                                strip_area_children_from(s, id, name, c + close_pat(area_name()).len()),
                            )
                        },
                    }
                }
            },
        }
    }
}

fn area_chars() -> (v: Vec<char>)
    ensures
        v@ == area_name(),
{
    let v = vec!['a', 'r', 'e', 'a'];
    assert(v@ =~= area_name());
    v
}

fn asset_id_attr() -> (v: Vec<char>)
    ensures
        v@ == asset_id_name(),
{
    let v = vec!['a', 's', 's', 'e', 't', '-', 'i', 'd'];
    assert(v@ =~= asset_id_name());
    v
}

/// Whether the attribute `key` of `tag` is `id` (chars).
pub fn attr_is(tag: &[char], key: &[char], id: &[char]) -> (r: bool)
    requires
        key@.len() > 0,
    ensures
        r == (attr_value(tag@, key@) == Some(id@)),
{
    match attr_value_chars(tag, key) {
        Some(v) => chars_eq(&v, id),
        None => false,
    }
}

fn strip_area_children_chars(s: &[char], id: &[char], name: &[char]) -> (r: Option<(Vec<char>, bool)>)
    ensures
        match r {
            None => strip_area_children_from(s@, id@, name@, 0) is None,
            Some((x, m)) => strip_area_children_from(s@, id@, name@, 0) == Some((x@, m)),
        },
{
    let open = open_pattern(&area_chars());
    let close = close_pattern(&area_chars());
    let aid = asset_id_attr();
    let slen = s.len();
    let mut out: Vec<char> = Vec::new();
    let mut matched = false;
    let mut pos: usize = 0;
    loop
        invariant
            slen == s@.len(),
            pos <= s@.len(),
            open@ == open_pat(area_name()),
            close@ == close_pat(area_name()),
            aid@ == asset_id_name(),
            strip_area_children_from(s@, id@, name@, 0) == prefixed2(
                out@,
                matched,
                strip_area_children_from(s@, id@, name@, pos as int),
            ),
        decreases s@.len() - pos,
    {
        match find_next_tag(s, &open, pos) {
            None => {
                let ghost before = out@;
                push_range(&mut out, s, pos, s.len());
                assert(out@ =~= before + s@.skip(pos as int));
                return Some((out, matched));
            },
            Some((t, e)) => {
                proof {
                    lemma_next_tag(s@, open@, pos as int);
                }
                let tag = copy_range(s, t, e);
                let same = attr_is(&tag, &aid, id);
                let ghost before = out@;
                if !same {
                    push_range(&mut out, s, pos, e);
                    proof {
                        lemma_prefixed2_assoc(before, matched, s@.subrange(pos as int, e as int), false, strip_area_children_from(s@, id@, name@, e as int));
                    }
                    pos = e;
                } else if is_self_closing(s, t, e) {
                    push_range(&mut out, s, pos, e);
                    proof {
                        lemma_prefixed2_assoc(before, matched, s@.subrange(pos as int, e as int), true, strip_area_children_from(s@, id@, name@, e as int));
                    }
                    matched = true;
                    pos = e;
                } else {
                    match find_from(s, &close, e) {
                        None => {
                            return None;
                        },
                        Some(c) => {
                            proof {
                                lemma_first_match(s@, close@, e as int);
                            }
                            let inner = copy_range(s, e, c);
                            let cleaned = remove_children_chars(&inner, name);
                            push_range(&mut out, s, pos, e);
                            push_all(&mut out, &cleaned);
                            push_all(&mut out, &close);
                            assert(out@ =~= before + (s@.subrange(pos as int, e as int) + cleaned@ + close_pat(area_name())));
                            proof {
                                lemma_prefixed2_assoc(before, matched, s@.subrange(pos as int, e as int) + cleaned@ + close_pat(area_name()), true, strip_area_children_from(s@, id@, name@, c + close@.len()));
                            }
                            matched = true;
                            pos = c + close.len();
                        },
                    }
                }
            },
        }
    }
}

/// `xml` with the child elements `<element_name>` removed from every `<area>` of
/// the asset `asset_id`.  An error when such an area has no end tag, or there is
/// none.
pub fn remove_asset_area_property_element(xml: &str, asset_id: &str, element_name: &str) -> (r:
    Result<String, String>)
    ensures
        match strip_area_children_from(xml@, asset_id@, element_name@, 0) {
            None => r matches Err(m) && m@ == "XML 中的 area 节点未正确闭合"@,
            Some((x, matched)) => if matched {
                r matches Ok(y) && y@ == x
            } else {
                r matches Err(m) && m@ == "XML 中未找到使用当前 assetId 的 area"@
            },
        },
{
    let s = chars_of(xml);
    let id = chars_of(asset_id);
    let n = chars_of(element_name);
    match strip_area_children_chars(&s, &id, &n) {
        None => Err("XML 中的 area 节点未正确闭合".to_string()),
        Some((x, matched)) => {
            if matched {
                Ok(string_from_chars(x))
            } else {
                Err("XML 中未找到使用当前 assetId 的 area".to_string())
            }
        },
    }
}

// ---------------------------------------------------------------------------
// Generated paths
// ---------------------------------------------------------------------------

/// The `<generatepath>` values inside the `<area>` elements of the asset `id`
/// from `from` on; the scan stops at such an area without end tag.
pub open spec fn area_generated_paths(s: Seq<char>, id: Seq<char>, from: int) -> Seq<Seq<char>>
    decreases s.len() - from,
{
    if from < 0 || from > s.len() {
        seq![]
    } else {
        match next_tag(s, open_pat(area_name()), from) {
            None => seq![],
            Some((t, e)) => {
                proof {
                    lemma_next_tag(s, open_pat(area_name()), from);
                }
                let tag = s.subrange(t, e);
                if attr_value(tag, asset_id_name()) != Some(id) || self_closing(tag) {
                    area_generated_paths(s, id, e)
                } else {
                    match first_match(s, close_pat(area_name()), e) {
                        None => seq![],
                        Some(c) => {
                            proof {
                                lemma_first_match(s, close_pat(area_name()), e);
                            }
                            child_values_from(s.subrange(e, c), generatepath_name(), 0)
                                + area_generated_paths(s, id, c + close_pat(area_name()).len())
                        },
                    }
                }
            },
        }
    }
}

/// The non-blank `generatepath` attributes of the `<asset>` tags with id `id`.
pub open spec fn asset_generated_paths(tags: Seq<Seq<char>>, id: Seq<char>) -> Seq<Seq<char>>
    decreases tags.len(),
{
    if tags.len() == 0 {
        seq![]
    } else {
        let rest = asset_generated_paths(tags.drop_last(), id);
        let tag = tags.last();
        if attr_value(tag, id_name()) == Some(id) {
            match attr_value(tag, generatepath_name()) {
                Some(p) => if trim(p).len() > 0 {
                    rest.push(p)
                } else {
                    rest
                },
                None => rest,
            }
        } else {
            rest
        }
    }
}

fn area_generated_paths_chars(s: &[char], id: &[char]) -> (r: Vec<Vec<char>>)
    ensures
        char_views(r@) == area_generated_paths(s@, id@, 0),
{
    let open = open_pattern(&area_chars());
    let close = close_pattern(&area_chars());
    let aid = asset_id_attr();
    let g = chars_of("generatepath");
    proof {
        reveal_strlit("generatepath");
        assert(g@ =~= generatepath_name());
    }
    let slen = s.len();
    let mut out: Vec<Vec<char>> = Vec::new();
    let mut pos: usize = 0;
    loop
        invariant
            slen == s@.len(),
            pos <= s@.len(),
            open@ == open_pat(area_name()),
            close@ == close_pat(area_name()),
            aid@ == asset_id_name(),
            g@ == generatepath_name(),
            char_views(out@) + area_generated_paths(s@, id@, pos as int) == area_generated_paths(s@, id@, 0),
        decreases s@.len() - pos,
    {
        match find_next_tag(s, &open, pos) {
            None => {
                assert(char_views(out@) =~= char_views(out@) + area_generated_paths(s@, id@, pos as int));
                return out;
            },
            Some((t, e)) => {
                proof {
                    lemma_next_tag(s@, open@, pos as int);
                }
                let tag = copy_range(s, t, e);
                let same = attr_is(&tag, &aid, id);
                if !same || is_self_closing(s, t, e) {
                    pos = e;
                } else {
                    match find_from(s, &close, e) {
                        None => {
                            assert(char_views(out@) =~= char_views(out@) + area_generated_paths(s@, id@, pos as int));
                            return out;
                        },
                        Some(c) => {
                            proof {
                                lemma_first_match(s@, close@, e as int);
                            }
                            let inner = copy_range(s, e, c);
                            let vals = child_values_chars(&inner, &g);
                            let ghost before = char_views(out@);
                            let mut k: usize = 0;
                            while k < vals.len()
                                invariant
                                    k <= vals@.len(),
                                    char_views(out@) == before + char_views(vals@).take(k as int),
                                decreases vals@.len() - k,
                            {
                                let mut v: Vec<char> = Vec::new();
                                push_all(&mut v, &vals[k]);
                                proof {
                                    lemma_char_views_push(out@, v);
                                }
                                out.push(v);
                                assert(char_views(vals@).take(k + 1) =~= char_views(vals@).take(k as int).push(vals@[k as int]@));
                                k += 1;
                            }
                            assert(char_views(vals@).take(k as int) =~= char_views(vals@));
                            assert(char_views(out@) + area_generated_paths(s@, id@, c + close@.len()) =~= before + area_generated_paths(s@, id@, pos as int));
                            pos = c + close.len();
                        },
                    }
                }
            },
        }
    }
}

/// The elements of `v`, each once, in the order of their first appearance.
pub fn dedup_chars(v: Vec<Vec<char>>) -> (r: Vec<Vec<char>>)
    ensures
        char_views(r@).no_duplicates(),
        forall|x: Seq<char>| #[trigger] char_views(r@).contains(x) <==> char_views(v@).contains(x),
{
    let mut r: Vec<Vec<char>> = Vec::new();
    let mut i: usize = 0;
    while i < v.len()
        invariant
            i <= v@.len(),
            char_views(r@).no_duplicates(),
            forall|x: Seq<char>| #[trigger] char_views(r@).contains(x) <==> char_views(v@).take(i as int).contains(x),
        decreases v@.len() - i,
    {
        let ghost prev = char_views(v@).take(i as int);
        assert(char_views(v@).take(i + 1) =~= prev.push(v@[i as int]@));
        if !contains_chars(&r, &v[i]) {
            let ghost old_r = char_views(r@);
            let mut c: Vec<char> = Vec::new();
            push_all(&mut c, &v[i]);
            assert(c@ =~= v@[i as int]@);
            proof {
                lemma_char_views_push(r@, c);
            }
            r.push(c);
            assert forall|x: Seq<char>| #[trigger] char_views(r@).contains(x)
                <==> char_views(v@).take(i + 1).contains(x) by {
                lemma_contains_push(old_r, v@[i as int]@, x);
                lemma_contains_push(prev, v@[i as int]@, x);
            }
            assert(char_views(r@).no_duplicates()) by {
                assert forall|a: int, b: int|
                    0 <= a < b < char_views(r@).len() implies #[trigger] char_views(r@)[a]
                    != #[trigger] char_views(r@)[b] by {
                    assert(old_r[a] == char_views(r@)[a]);
                    if b == old_r.len() {
                        assert(old_r.contains(old_r[a]));
                    } else {
                        assert(old_r[b] == char_views(r@)[b]);
                    }
                }
            }
        } else {
            assert forall|x: Seq<char>| #[trigger] char_views(r@).contains(x)
                <==> char_views(v@).take(i + 1).contains(x) by {
                lemma_contains_push(prev, v@[i as int]@, x);
            }
        }
        i += 1;
    }
    assert(char_views(v@).take(i as int) =~= char_views(v@));
    r
}

/// The distinct generated paths recorded for the asset `asset_id`: the
/// `<generatepath>` values inside its `<area>` elements and the non-blank
/// `generatepath` attributes of its `<asset>` tags, each once.
pub fn collect_asset_generated_paths(xml: &str, asset_id: &str) -> (r: Vec<String>)
    ensures
        string_views(r@).no_duplicates(),
        forall|x: Seq<char>| #[trigger] string_views(r@).contains(x) <==> (area_generated_paths(
            xml@,
            asset_id@,
            0,
        ) + asset_generated_paths(start_tags(xml@, asset_name()), asset_id@)).contains(x),
{
    let s = chars_of(xml);
    let id = chars_of(asset_id);
    let mut all = area_generated_paths_chars(&s, &id);
    let asset = vec!['a', 's', 's', 'e', 't'];
    assert(asset@ =~= asset_name());
    let tags = start_tags_chars(&s, &asset);
    let idn = vec!['i', 'd'];
    assert(idn@ =~= id_name());
    let g = chars_of("generatepath");
    proof {
        reveal_strlit("generatepath");
        assert(g@ =~= generatepath_name());
    }
    let ghost first = char_views(all@);
    let ghost ts = char_views(tags@);
    let mut i: usize = 0;
    while i < tags.len()
        invariant
            i <= tags@.len(),
            ts == char_views(tags@),
            idn@ == id_name(),
            g@ == generatepath_name(),
            char_views(all@) == first + asset_generated_paths(ts.take(i as int), id@),
        decreases tags@.len() - i,
    {
        assert(ts.take(i + 1).drop_last() =~= ts.take(i as int));
        assert(ts.take(i + 1).last() == tags@[i as int]@);
        if attr_is(&tags[i], &idn, &id) {
            match attr_value_chars(&tags[i], &g) {
                Some(p) => {
                    let (a, b) = trim_range(&p, 0, p.len());
                    assert(p@.subrange(0, p@.len() as int) =~= p@);
                    if b > a {
                        proof {
                            lemma_char_views_push(all@, p);
                        }
                        all.push(p);
                    }
                },
                None => {},
            }
        }
        i += 1;
    }
    assert(ts.take(i as int) =~= ts);
    to_strings(dedup_chars(all))
}

} // verus!
