//! Editing documents in place: rewriting start tags, removing elements, and the
//! project-file edits built on them.

use vstd::prelude::*;
use crate::text::{
    decimal, push_u64, trim, trim_end_pos, chars_of, find_char_from, first_match, last_match, lemma_first_match, opt_int, push_all,
    push_range, push_str, rfind_before, string_from_chars,
};
use crate::xml::{
    close_pat, close_pattern, find_next_tag, find_tag_candidate, lemma_next_tag,
    lemma_tag_candidate, next_tag, open_pat, open_pattern, tag_candidate,
};
use crate::attr::{
    attr_value, attr_value_chars, remove_attr, remove_attr_chars, replace_or_insert_attr,
    replace_or_insert_attr_chars,
};
use crate::scan::{char_views, is_self_closing, lemma_char_views_push, self_closing,
    start_tags, start_tags_chars, string_views};

verus! {

/// `id`
pub open spec fn id_name() -> Seq<char> {
    seq!['i', 'd']
}

/// What is done to each start tag of a rewrite.
#[derive(Clone, Copy, PartialEq, Eq, Structural)]
pub enum EditKind {
    /// Remove the attribute from every tag.
    RemoveAttr,
    /// Set the attribute on the tags whose `id` is the given id.
    SetAttrForId,
    /// Remove the attribute from the tags whose `id` is the given id.
    RemoveAttrForId,
}

/// The tag is one the edit applies to.
pub open spec fn edit_hits(kind: EditKind, key: Seq<char>, id: Seq<char>, tag: Seq<char>) -> bool {
    match kind {
        EditKind::RemoveAttr => true,
        _ => attr_value(tag, key) == Some(id),
    }
}

/// The tag after the edit.
pub open spec fn apply_edit(
    kind: EditKind,
    key: Seq<char>,
    id: Seq<char>,
    a: Seq<char>,
    v: Seq<char>,
    tag: Seq<char>,
) -> Seq<char> {
    if !edit_hits(kind, key, id, tag) {
        tag
    } else {
        match kind {
            EditKind::SetAttrForId => replace_or_insert_attr(tag, a, v),
            _ => remove_attr(tag, a),
        }
    }
}

/// `s` from `from` on with each start tag `open…>` edited; the text between the
/// tags, and everything from a start tag without `>` on, is kept.
pub open spec fn rewrite_from(
    s: Seq<char>,
    open: Seq<char>,
    from: int,
    kind: EditKind,
    key: Seq<char>,
    id: Seq<char>,
    a: Seq<char>,
    v: Seq<char>,
) -> Seq<char>
    decreases s.len() - from,
{
    if from < 0 || from > s.len() {
        seq![]
    } else {
        match next_tag(s, open, from) {
            None => s.skip(from),
            Some((t, e)) => {
                proof {
                    lemma_next_tag(s, open, from);
                }
                s.subrange(from, t) + apply_edit(kind, key, id, a, v, s.subrange(t, e)) + rewrite_from(
                    s,
                    open,
                    e,
                    kind,
                    key,
                    id,
                    a,
                    v,
                )
            },
        }
    }
}

/// Some start tag `open…>` from `from` on is one the edit applies to.
pub open spec fn any_hit(s: Seq<char>, open: Seq<char>, from: int, kind: EditKind, key: Seq<char>, id: Seq<char>) -> bool
    decreases s.len() - from,
{
    if from < 0 || from > s.len() {
        false
    } else {
        match next_tag(s, open, from) {
            None => false,
            Some((t, e)) => {
                proof {
                    lemma_next_tag(s, open, from);
                }
                edit_hits(kind, key, id, s.subrange(t, e)) || any_hit(s, open, e, kind, key, id)
            },
        }
    }
}

fn apply_edit_chars(kind: EditKind, key: &[char], id: &[char], a: &[char], v: &[char], tag: &[char]) -> (r: (
    Vec<char>,
    bool,
))
    requires
        a@.len() > 0,
        key@.len() > 0,
    ensures
        r.0@ == apply_edit(kind, key@, id@, a@, v@, tag@),
        r.1 == edit_hits(kind, key@, id@, tag@),
{
    let hit = match kind {
        EditKind::RemoveAttr => true,
        _ => {
            match attr_value_chars(tag, key) {
                Some(x) => {
                    let same = crate::text::matches_at_exec(&x, id, 0) && x.len() == id.len();
                    proof {
                        if same {
                            assert(x@ =~= id@);
                        } else if x@ == id@ {
                            assert(x@.subrange(0, id@.len() as int) =~= id@);
                        }
                    }
                    same
                },
                None => false,
            }
        },
    };
    if !hit {
        let mut out: Vec<char> = Vec::new();
        push_all(&mut out, tag);
        assert(out@ =~= tag@);
        return (out, false);
    }
    match kind {
        EditKind::SetAttrForId => (replace_or_insert_attr_chars(tag, a, v), true),
        _ => (remove_attr_chars(tag, a), true),
    }
}

/// `s` with each start tag `<name…>` edited, and whether the edit applied to any.
fn rewrite_start_tags(
    s: &[char],
    name: &[char],
    kind: EditKind,
    key: &[char],
    id: &[char],
    a: &[char],
    v: &[char],
) -> (r: (Vec<char>, bool))
    requires
        a@.len() > 0,
        key@.len() > 0,
    ensures
        r.0@ == rewrite_from(s@, open_pat(name@), 0, kind, key@, id@, a@, v@),
        r.1 == any_hit(s@, open_pat(name@), 0, kind, key@, id@),
{
    let open = open_pattern(name);
    let mut out: Vec<char> = Vec::new();
    let mut hit = false;
    let mut pos: usize = 0;
    loop
        invariant
            a@.len() > 0,
            key@.len() > 0,
            pos <= s@.len(),
            open@ == open_pat(name@),
            out@ + rewrite_from(s@, open@, pos as int, kind, key@, id@, a@, v@) == rewrite_from(
                s@,
                open@,
                0,
                kind,
                key@,
                id@,
                a@,
                v@,
            ),
            (hit || any_hit(s@, open@, pos as int, kind, key@, id@)) == any_hit(
                s@,
                open@,
                0,
                kind,
                key@,
                id@,
            ),
        decreases s@.len() - pos,
    {
        match find_next_tag(s, &open, pos) {
            None => {
                push_range(&mut out, s, pos, s.len());
                assert(s@.subrange(pos as int, s@.len() as int) =~= s@.skip(pos as int));
                return (out, hit);
            },
            Some((t, e)) => {
                proof {
                    lemma_next_tag(s@, open@, pos as int);
                }
                let ghost before = out@;
                push_range(&mut out, s, pos, t);
                let tag = crate::text::copy_range(s, t, e);
                let (edited, h) = apply_edit_chars(kind, key, id, a, v, &tag);
                push_all(&mut out, &edited);
                hit = hit || h;
                assert(out@ + rewrite_from(s@, open@, e as int, kind, key@, id@, a@, v@) =~= before
                    + rewrite_from(s@, open@, pos as int, kind, key@, id@, a@, v@));
                pos = e;
            },
        }
    }
}

/// `xml` with the attribute `attribute` removed from every start tag
/// `<tag_name…>`.
pub fn remove_attribute_from_xml_start_tags(xml: &str, tag_name: &str, attribute: &str) -> (r:
    String)
    requires
        attribute@.len() > 0,
    ensures
        r@ == rewrite_from(
            xml@,
            open_pat(tag_name@),
            0,
            EditKind::RemoveAttr,
            id_name(),
            seq![],
            attribute@,
            seq![],
        ),
{
    let s = chars_of(xml);
    let n = chars_of(tag_name);
    let a = chars_of(attribute);
    let none: Vec<char> = Vec::new();
    let (out, _) = rewrite_start_tags(&s, &n, EditKind::RemoveAttr, &id_chars(), &none, &a, &none);
    assert(none@ =~= Seq::<char>::empty());
    string_from_chars(out)
}

pub open spec fn asset_name() -> Seq<char> {
    seq!['a', 's', 's', 'e', 't']
}

pub open spec fn filepath_name() -> Seq<char> {
    seq!['f', 'i', 'l', 'e', 'p', 'a', 't', 'h']
}

pub open spec fn generatepath_name() -> Seq<char> {
    seq!['g', 'e', 'n', 'e', 'r', 'a', 't', 'e', 'p', 'a', 't', 'h']
}

fn id_chars() -> (v: Vec<char>)
    ensures
        v@ == id_name(),
{
    let v = vec!['i', 'd'];
    assert(v@ =~= id_name());
    v
}

fn asset_chars() -> (v: Vec<char>)
    ensures
        v@ == asset_name(),
{
    let v = vec!['a', 's', 's', 'e', 't'];
    assert(v@ =~= asset_name());
    v
}

fn filepath_chars() -> (v: Vec<char>)
    ensures
        v@ == filepath_name(),
{
    let v = vec!['f', 'i', 'l', 'e', 'p', 'a', 't', 'h'];
    assert(v@ =~= filepath_name());
    v
}

fn generatepath_chars() -> (v: Vec<char>)
    ensures
        v@ == generatepath_name(),
{
    let v = vec!['g', 'e', 'n', 'e', 'r', 'a', 't', 'e', 'p', 'a', 't', 'h'];
    assert(v@ =~= generatepath_name());
    v
}

/// `project_file_xml` with `filepath` set to `project_filepath` on every
/// `<asset>` start tag whose `id` is `asset_id`; an error when there is none.
pub fn update_project_asset_filepath(
    project_file_xml: &str,
    asset_id: &str,
    project_filepath: &str,
) -> (r: Result<String, String>)
    ensures
        any_hit(project_file_xml@, open_pat(asset_name()), 0, EditKind::SetAttrForId, id_name(), asset_id@)
            <==> r is Ok,
        r matches Ok(x) ==> x@ == rewrite_from(
            project_file_xml@,
            open_pat(asset_name()),
            0,
            EditKind::SetAttrForId,
            id_name(),
            asset_id@,
            filepath_name(),
            project_filepath@,
        ),
        r matches Err(m) ==> m@ == "projectFile.xml 中未找到对应的 asset"@,
{
    let s = chars_of(project_file_xml);
    let id = chars_of(asset_id);
    let v = chars_of(project_filepath);
    let (out, hit) = rewrite_start_tags(
        &s,
        &asset_chars(),
        EditKind::SetAttrForId,
        &id_chars(),
        &id,
        &filepath_chars(),
        &v,
    );
    if hit {
        Ok(string_from_chars(out))
    } else {
        Err("projectFile.xml 中未找到对应的 asset".to_string())
    }
}

/// `template_xml` with `generatepath` set to `generate_path` (or removed, for
/// `None`) on every `<asset>` start tag whose `id` is `asset_id`; an error when
/// there is none.
pub fn update_project_asset_generatepath(
    template_xml: &str,
    asset_id: &str,
    generate_path: Option<&str>,
) -> (r: Result<String, String>)
    ensures
        any_hit(template_xml@, open_pat(asset_name()), 0, EditKind::SetAttrForId, id_name(), asset_id@)
            <==> r is Ok,
        r matches Ok(x) ==> x@ == match generate_path {
            Some(p) => rewrite_from(
                template_xml@,
                open_pat(asset_name()),
                0,
                EditKind::SetAttrForId,
                id_name(),
                asset_id@,
                generatepath_name(),
                p@,
            ),
            None => rewrite_from(
                template_xml@,
                open_pat(asset_name()),
                0,
                EditKind::RemoveAttrForId,
                id_name(),
                asset_id@,
                generatepath_name(),
                seq![],
            ),
        },
        r matches Err(m) ==> m@ == "template.xml 中未找到对应的 asset"@,
{
    let s = chars_of(template_xml);
    let id = chars_of(asset_id);
    let (out, hit) = match generate_path {
        Some(p) => {
            let v = chars_of(p);
            rewrite_start_tags(
                &s,
                &asset_chars(),
                EditKind::SetAttrForId,
                &id_chars(),
                &id,
                &generatepath_chars(),
                &v,
            )
        },
        None => {
            let none: Vec<char> = Vec::new();
            assert(none@ =~= Seq::<char>::empty());
            let r = rewrite_start_tags(
                &s,
                &asset_chars(),
                EditKind::RemoveAttrForId,
                &id_chars(),
                &id,
                &generatepath_chars(),
                &none,
            );
            proof {
                lemma_any_hit_kinds(s@, open_pat(asset_name()), 0, id_name(), id@);
            }
            r
        },
    };
    if hit {
        Ok(string_from_chars(out))
    } else {
        Err("template.xml 中未找到对应的 asset".to_string())
    }
}

proof fn lemma_any_hit_kinds(s: Seq<char>, open: Seq<char>, from: int, key: Seq<char>, id: Seq<char>)
    ensures
        any_hit(s, open, from, EditKind::RemoveAttrForId, key, id) == any_hit(
            s,
            open,
            from,
            EditKind::SetAttrForId,
            key,
            id,
        ),
    decreases s.len() - from,
{
    if 0 <= from <= s.len() {
        lemma_next_tag(s, open, from);
        if let Some((t, e)) = next_tag(s, open, from) {
            lemma_any_hit_kinds(s, open, e, key, id);
        }
    }
}


// ---------------------------------------------------------------------------
// Removing elements
// ---------------------------------------------------------------------------

/// The start of the line that holds position `t`.
pub open spec fn line_start(s: Seq<char>, t: int) -> int {
    match last_match(s, seq!['\n'], t) {
        Some(i) => i + 1,
        None => 0,
    }
}

/// Every character is a space, a tab or a carriage return.
pub open spec fn indent_only(s: Seq<char>) -> bool {
    forall|k: int| 0 <= k < s.len() ==> #[trigger] s[k] == ' ' || s[k] == '\t' || s[k] == '\r'
}

/// The end of the run of spaces and tabs that starts at `i`.
pub open spec fn blank_end(s: Seq<char>, i: int) -> int
    decreases s.len() - i,
{
    if 0 <= i < s.len() && (s[i] == ' ' || s[i] == '\t') {
        blank_end(s, i + 1)
    } else {
        i
    }
}

/// Past the spaces and tabs after `i`, then one `\r`, then one `\n`, each if
/// present.
pub open spec fn removal_end(s: Seq<char>, i: int) -> int {
    let a = blank_end(s, i);
    let b = if 0 <= a < s.len() && s[a] == '\r' {
        a + 1
    } else {
        a
    };
    if 0 <= b < s.len() && s[b] == '\n' {
        b + 1
    } else {
        b
    }
}

/// Where the removal of an element that starts at `t` begins: the start of its
/// line when only indentation precedes it there, else `t`.
pub open spec fn removal_start(s: Seq<char>, t: int) -> int {
    let ls = line_start(s, t);
    if indent_only(s.subrange(ls, t)) {
        ls
    } else {
        t
    }
}

/// The end of the element whose start tag starts at `t`: past `/>` of a
/// self-closing tag, else past the first end tag `</name>` after the start tag.
pub open spec fn element_end(s: Seq<char>, name: Seq<char>, t: int) -> Option<int> {
    match first_match(s, seq!['>'], t) {
        None => None,
        Some(g) => if self_closing(s.subrange(t, g + 1)) {
            Some(g + 1)
        } else {
            match first_match(s, close_pat(name), g + 1) {
                None => None,
                Some(c) => Some(c + close_pat(name).len()),
            }
        },
    }
}

pub proof fn lemma_blank_end(s: Seq<char>, i: int)
    requires
        0 <= i <= s.len(),
    ensures
        i <= blank_end(s, i) <= s.len(),
    decreases s.len() - i,
{
    if i < s.len() && (s[i] == ' ' || s[i] == '\t') {
        lemma_blank_end(s, i + 1);
    }
}

pub proof fn lemma_removal_bounds(s: Seq<char>, name: Seq<char>, t: int)
    requires
        0 <= t <= s.len(),
    ensures
        0 <= line_start(s, t) <= removal_start(s, t) <= t,
        element_end(s, name, t) matches Some(ee) ==> t < ee <= removal_end(s, ee) <= s.len(),
{
    crate::attr::lemma_last_match_bound(s, seq!['\n'], t);
    lemma_first_match(s, seq!['>'], t);
    if let Some(g) = first_match(s, seq!['>'], t) {
        lemma_first_match(s, close_pat(name), g + 1);
    }
    if let Some(ee) = element_end(s, name, t) {
        lemma_blank_end(s, ee);
    }
}

/// `s` without each element `<name…>` from `from` on, together with its line when
/// the element stands alone on it (see `removal_start` and `removal_end`).  The
/// scan goes on where the removed text began.  `None` when a start tag has no `>`
/// or an element no end tag.
pub open spec fn remove_elements(s: Seq<char>, name: Seq<char>, from: int) -> Option<Seq<char>>
    decreases s.len(),
{
    match tag_candidate(s, open_pat(name), from) {
        None => Some(s),
        Some(t) => match element_end(s, name, t) {
            None => None,
            Some(ee) => {
                proof {
                    lemma_tag_candidate(s, open_pat(name), from);
                    lemma_removal_bounds(s, name, t);
                }
                let rs = removal_start(s, t);
                let re = removal_end(s, ee);
                remove_elements(s.take(rs) + s.skip(re), name, rs)
            },
        },
    }
}

/// `XML 中的 {name} 节点未正确闭合`
pub open spec fn unclosed_message(name: Seq<char>) -> Seq<char> {
    "XML 中的 "@ + name + " 节点未正确闭合"@
}

fn element_end_chars(s: &[char], name: &[char], close: &[char], t: usize) -> (r: Option<usize>)
    requires
        t <= s@.len(),
        close@ == close_pat(name@),
    ensures
        opt_int(r) == element_end(s@, name@, t as int),
{
    let slen = s.len();
    match find_char_from(s, '>', t) {
        None => None,
        Some(g) => {
            proof {
                lemma_first_match(s@, seq!['>'], t as int);
            }
            if is_self_closing(s, t, g + 1) {
                Some(g + 1)
            } else {
                match crate::text::find_from(s, close, g + 1) {
                    None => None,
                    Some(c) => {
                        proof {
                            lemma_first_match(s@, close@, g + 1);
                        }
                        Some(c + close.len())
                    },
                }
            }
        },
    }
}

pub fn removal_span(s: &[char], t: usize, ee: usize) -> (r: (usize, usize))
    requires
        t < ee <= s@.len(),
    ensures
        r.0 == removal_start(s@, t as int),
        r.1 == removal_end(s@, ee as int),
{
    let nl = vec!['\n'];
    assert(nl@ =~= seq!['\n']);
    proof {
        crate::attr::lemma_last_match_bound(s@, seq!['\n'], t as int);
    }
    let ls = match rfind_before(s, &nl, t) {
        Some(i) => i + 1,
        None => 0,
    };
    let mut k = ls;
    let mut indented = true;
    while k < t
        invariant
            ls <= k <= t <= s@.len(),
            indented == indent_only(s@.subrange(ls as int, k as int)),
        decreases t - k,
    {
        let c = s[k];
        let ok = c == ' ' || c == '\t' || c == '\r';
        assert(indent_only(s@.subrange(ls as int, k + 1)) == (indent_only(
            s@.subrange(ls as int, k as int),
        ) && ok)) by {
            let a = s@.subrange(ls as int, k + 1);
            let b = s@.subrange(ls as int, k as int);
            assert(a[k - ls] == c);
            assert forall|j: int| 0 <= j < b.len() implies b[j] == a[j] by {}
        }
        indented = indented && ok;
        k += 1;
    }
    let rs = if indented {
        ls
    } else {
        t
    };
    let mut re = ee;
    while re < s.len() && (s[re] == ' ' || s[re] == '\t')
        invariant
            ee <= re <= s@.len(),
            blank_end(s@, ee as int) == blank_end(s@, re as int),
        decreases s@.len() - re,
    {
        re += 1;
    }
    if re < s.len() && s[re] == '\r' {
        re += 1;
    }
    if re < s.len() && s[re] == '\n' {
        re += 1;
    }
    (rs, re)
}

/// `s` without every element `<name…>` (chars); `None` when one is not closed.
pub fn remove_elements_chars(s: &[char], name: &[char]) -> (r: Option<Vec<char>>)
    ensures
        match r {
            Some(x) => remove_elements(s@, name@, 0) == Some(x@),
            None => remove_elements(s@, name@, 0) is None,
        },
{
    let open = open_pattern(name);
    let close = close_pattern(name);
    let mut out: Vec<char> = Vec::new();
    push_all(&mut out, s);
    assert(out@ =~= s@);
    let mut pos: usize = 0;
    loop
        invariant
            open@ == open_pat(name@),
            close@ == close_pat(name@),
            remove_elements(out@, name@, pos as int) == remove_elements(s@, name@, 0),
        decreases out@.len(),
    {
        match find_tag_candidate(&out, &open, pos) {
            None => {
                return Some(out);
            },
            Some(t) => {
                proof {
                    lemma_tag_candidate(out@, open@, pos as int);
                }
                match element_end_chars(&out, name, &close, t) {
                    None => {
                        return None;
                    },
                    Some(ee) => {
                        proof {
                            lemma_removal_bounds(out@, name@, t as int);
                        }
                        let (rs, re) = removal_span(&out, t, ee);
                        let mut next: Vec<char> = Vec::new();
                        push_range(&mut next, &out, 0, rs);
                        push_range(&mut next, &out, re, out.len());
                        assert(next@ =~= out@.take(rs as int) + out@.skip(re as int));
                        out = next;
                        pos = rs;
                    },
                }
            },
        }
    }
}

/// `xml` without every element `<element_name…>` — self-closing or up to its
/// first end tag — and without the line it stands on when it stands alone there;
/// an error when such an element has no `>` or no end tag.
pub fn remove_all_xml_elements(xml: &str, element_name: &str) -> (r: Result<String, String>)
    ensures
        match r {
            Ok(x) => remove_elements(xml@, element_name@, 0) == Some(x@),
            Err(m) => remove_elements(xml@, element_name@, 0) is None && m@ == unclosed_message(
                element_name@,
            ),
        },
{
    let s = chars_of(xml);
    let n = chars_of(element_name);
    match remove_elements_chars(&s, &n) {
        Some(x) => Ok(string_from_chars(x)),
        None => {
            let mut m: Vec<char> = Vec::new();
            push_str(&mut m, "XML 中的 ");
            push_all(&mut m, &n);
            push_str(&mut m, " 节点未正确闭合");
            Err(string_from_chars(m))
        },
    }
}

/// `xml` without any `<generatepath>` element and without the `generatepath`
/// attribute of its `<asset>` start tags.
pub fn clear_project_generatepaths(xml: &str) -> (r: Result<String, String>)
    ensures
        match r {
            Ok(x) => remove_elements(xml@, generatepath_name(), 0) matches Some(y) && x@
                == rewrite_from(
                y,
                open_pat(asset_name()),
                0,
                EditKind::RemoveAttr,
                id_name(),
                seq![],
                generatepath_name(),
                seq![],
            ),
            Err(m) => remove_elements(xml@, generatepath_name(), 0) is None && m@
                == unclosed_message(generatepath_name()),
        },
{
    let s = chars_of(xml);
    let g = generatepath_chars();
    match remove_elements_chars(&s, &g) {
        None => {
            let mut m: Vec<char> = Vec::new();
            push_str(&mut m, "XML 中的 ");
            push_all(&mut m, &g);
            push_str(&mut m, " 节点未正确闭合");
            Err(string_from_chars(m))
        },
        Some(y) => {
            let none: Vec<char> = Vec::new();
            assert(none@ =~= Seq::<char>::empty());
            let (out, _) = rewrite_start_tags(&y, &asset_chars(), EditKind::RemoveAttr, &id_chars(), &none, &g, &none);
            Ok(string_from_chars(out))
        },
    }
}


// ---------------------------------------------------------------------------
// Project root and asset paths
// ---------------------------------------------------------------------------

pub open spec fn project_tag_name() -> Seq<char> {
    seq!['p', 'r', 'o', 'j', 'e', 'c', 't']
}

pub open spec fn name_name() -> Seq<char> {
    seq!['n', 'a', 'm', 'e']
}

/// The result of giving the first `<project>` start tag the id `id` and the name
/// `name`: `None` when there is no such tag or it has no `>`.
pub open spec fn with_root_identity(s: Seq<char>, id: Seq<char>, name: Seq<char>) -> Option<
    Seq<char>,
> {
    match next_tag(s, open_pat(project_tag_name()), 0) {
        None => None,
        Some((t, e)) => Some(
            s.take(t) + replace_or_insert_attr(
                replace_or_insert_attr(s.subrange(t, e), id_name(), id),
                name_name(),
                name,
            ) + s.skip(e),
        ),
    }
}

/// `project_file_xml` with its first `<project>` start tag given the id
/// `project_id` and the name `project_name`.
pub fn update_project_root_identity(project_file_xml: &str, project_id: &str, project_name: &str) -> (r:
    Result<String, String>)
    ensures
        match r {
            Ok(x) => with_root_identity(project_file_xml@, project_id@, project_name@) == Some(
                x@,
            ),
            Err(m) => with_root_identity(project_file_xml@, project_id@, project_name@) is None
                && (if tag_candidate(project_file_xml@, open_pat(project_tag_name()), 0) is None {
                m@ == "projectFile.xml 缺少 project 节点"@
            } else {
                m@ == "projectFile.xml 中的 project 节点未正确闭合"@
            }),
        },
{
    let s = chars_of(project_file_xml);
    let open = vec!['<', 'p', 'r', 'o', 'j', 'e', 'c', 't'];
    assert(open@ =~= open_pat(project_tag_name()));
    match find_tag_candidate(&s, &open, 0) {
        None => Err("projectFile.xml 缺少 project 节点".to_string()),
        Some(t) => {
            proof {
                lemma_tag_candidate(s@, open@, 0);
            }
            match find_char_from(&s, '>', t) {
                None => Err("projectFile.xml 中的 project 节点未正确闭合".to_string()),
                Some(g) => {
                    proof {
                        lemma_first_match(s@, seq!['>'], t as int);
                    }
                    let slen = s.len();
                    let e = g + 1;
                    let tag = crate::text::copy_range(&s, t, e);
                    let idn = vec!['i', 'd'];
                    assert(idn@ =~= id_name());
                    let nm = vec!['n', 'a', 'm', 'e'];
                    assert(nm@ =~= name_name());
                    let pid = chars_of(project_id);
                    let pname = chars_of(project_name);
                    let tag = replace_or_insert_attr_chars(&tag, &idn, &pid);
                    let tag = replace_or_insert_attr_chars(&tag, &nm, &pname);
                    let mut out: Vec<char> = Vec::new();
                    push_range(&mut out, &s, 0, t);
                    push_all(&mut out, &tag);
                    push_range(&mut out, &s, e, s.len());
                    assert(out@ =~= with_root_identity(s@, pid@, pname@)->0);
                    Ok(string_from_chars(out))
                },
            }
        },
    }
}

/// Compares two character sequences.
pub fn chars_eq(a: &[char], b: &[char]) -> (r: bool)
    ensures
        r == (a@ == b@),
{
    if a.len() != b.len() {
        return false;
    }
    let r = crate::text::matches_at_exec(a, b, 0);
    proof {
        if r {
            assert(a@ =~= b@);
        } else if a@ == b@ {
            assert(a@.subrange(0, b@.len() as int) =~= b@);
        }
    }
    r
}

/// Whether `x` is among `v`.
pub fn contains_chars(v: &Vec<Vec<char>>, x: &[char]) -> (r: bool)
    ensures
        r == char_views(v@).contains(x@),
{
    let mut i: usize = 0;
    while i < v.len()
        invariant
            i <= v@.len(),
            forall|j: int| 0 <= j < i ==> v@[j]@ != x@,
        decreases v@.len() - i,
    {
        if chars_eq(&v[i], x) {
            assert(char_views(v@)[i as int] == x@);
            return true;
        }
        i += 1;
    }
    assert forall|j: int| 0 <= j < char_views(v@).len() implies char_views(v@)[j] != x@ by {}
    false
}

pub proof fn lemma_contains_push(s: Seq<Seq<char>>, v: Seq<char>, x: Seq<char>)
    ensures
        s.push(v).contains(x) <==> (s.contains(x) || x == v),
{
    if s.contains(x) {
        let j = choose|j: int| 0 <= j < s.len() && s[j] == x;
        assert(s.push(v)[j] == x);
    }
    if x == v {
        assert(s.push(v)[s.len() as int] == x);
    }
    if s.push(v).contains(x) {
        let j = choose|j: int| 0 <= j < s.push(v).len() && s.push(v)[j] == x;
        if j < s.len() {
            assert(s[j] == x);
        }
    }
}

/// The defined values of the attribute `a` of the tags `tags`, in order.
pub open spec fn attr_values(tags: Seq<Seq<char>>, a: Seq<char>) -> Seq<Seq<char>>
    decreases tags.len(),
{
    if tags.len() == 0 {
        seq![]
    } else {
        match attr_value(tags.last(), a) {
            Some(v) => attr_values(tags.drop_last(), a).push(v),
            None => attr_values(tags.drop_last(), a),
        }
    }
}

/// The distinct `filepath` values of the `<asset>` start tags of
/// `project_file_xml`, each once, in the order of their first appearance.
pub fn collect_project_asset_filepaths(project_file_xml: &str) -> (r: Vec<String>)
    ensures
        string_views(r@).no_duplicates(),
        forall|x: Seq<char>| #[trigger] string_views(r@).contains(x) <==> attr_values(
            start_tags(project_file_xml@, asset_name()),
            filepath_name(),
        ).contains(x),
{
    let s = chars_of(project_file_xml);
    let tags = start_tags_chars(&s, &asset_chars());
    let fp = filepath_chars();
    let ghost all = char_views(tags@);
    let mut found: Vec<Vec<char>> = Vec::new();
    let mut i: usize = 0;
    while i < tags.len()
        invariant
            i <= tags@.len(),
            all == char_views(tags@),
            fp@ == filepath_name(),
            char_views(found@).no_duplicates(),
            forall|x: Seq<char>| #[trigger] char_views(found@).contains(x) <==> attr_values(
                all.take(i as int),
                filepath_name(),
            ).contains(x),
        decreases tags@.len() - i,
    {
        assert(all.take(i + 1).drop_last() =~= all.take(i as int));
        assert(all.take(i + 1).last() == tags@[i as int]@);
        let ghost prev = attr_values(all.take(i as int), filepath_name());
        match attr_value_chars(&tags[i], &fp) {
            Some(v) => {
                assert(attr_values(all.take(i + 1), filepath_name()) == prev.push(v@));
                if !contains_chars(&found, &v) {
                    let ghost old_found = char_views(found@);
                    proof {
                        lemma_char_views_push(found@, v);
                    }
                    found.push(v);
                    assert forall|x: Seq<char>| #[trigger] char_views(found@).contains(x)
                        <==> attr_values(all.take(i + 1), filepath_name()).contains(x) by {
                        lemma_contains_push(old_found, v@, x);
                        lemma_contains_push(prev, v@, x);
                    }
                    assert(char_views(found@).no_duplicates()) by {
                        assert forall|a: int, b: int|
                            0 <= a < b < char_views(found@).len() implies #[trigger] char_views(
                            found@,
                        )[a] != #[trigger] char_views(found@)[b] by {
                            if b == old_found.len() {
                                assert(old_found[a] == char_views(found@)[a]);
                                assert(old_found.contains(old_found[a]));
                            } else {
                                assert(old_found[a] == char_views(found@)[a]);
                                assert(old_found[b] == char_views(found@)[b]);
                            }
                        }
                    }
                } else {
                    assert forall|x: Seq<char>| #[trigger] char_views(found@).contains(x)
                        <==> attr_values(all.take(i + 1), filepath_name()).contains(x) by {
                        lemma_contains_push(prev, v@, x);
                    }
                }
            },
            None => {
                assert(attr_values(all.take(i + 1), filepath_name()) == prev);
            },
        }
        i += 1;
    }
    assert(all.take(i as int) =~= all);
    let r = crate::scan::to_strings(found);
    r
}


// ---------------------------------------------------------------------------
// Clip offsets
// ---------------------------------------------------------------------------

pub open spec fn area_name() -> Seq<char> {
    seq!['a', 'r', 'e', 'a']
}

pub open spec fn asset_id_name() -> Seq<char> {
    seq!['a', 's', 's', 'e', 't', '-', 'i', 'd']
}

pub open spec fn offset_name() -> Seq<char> {
    seq!['o', 'f', 'f', 's', 'e', 't']
}

fn area_chars() -> (v: Vec<char>)
    ensures
        v@ == area_name(),
{
    let v = vec!['a', 'r', 'e', 'a'];
    assert(v@ =~= area_name());
    v
}

fn asset_id_chars() -> (v: Vec<char>)
    ensures
        v@ == asset_id_name(),
{
    let v = vec!['a', 's', 's', 'e', 't', '-', 'i', 'd'];
    assert(v@ =~= asset_id_name());
    v
}

fn offset_chars() -> (v: Vec<char>)
    ensures
        v@ == offset_name(),
{
    let v = vec!['o', 'f', 'f', 's', 'e', 't'];
    assert(v@ =~= offset_name());
    v
}

/// `project_file_xml` with `offset` set to `offset_ms` on every `<area>` start
/// tag whose `asset-id` is `asset_id`; an error when there is none.
pub fn update_project_clip_offsets(project_file_xml: &str, asset_id: &str, offset_ms: u64) -> (r:
    Result<String, String>)
    ensures
        any_hit(
            project_file_xml@,
            open_pat(area_name()),
            0,
            EditKind::SetAttrForId,
            asset_id_name(),
            asset_id@,
        ) <==> r is Ok,
        r matches Ok(x) ==> x@ == rewrite_from(
            project_file_xml@,
            open_pat(area_name()),
            0,
            EditKind::SetAttrForId,
            asset_id_name(),
            asset_id@,
            offset_name(),
            decimal(offset_ms as nat),
        ),
        r matches Err(m) ==> m@ == "projectFile.xml 中未找到对应的 area"@,
{
    let s = chars_of(project_file_xml);
    let id = chars_of(asset_id);
    let mut v: Vec<char> = Vec::new();
    push_u64(&mut v, offset_ms);
    assert(v@ =~= decimal(offset_ms as nat));
    let (out, hit) = rewrite_start_tags(
        &s,
        &area_chars(),
        EditKind::SetAttrForId,
        &asset_id_chars(),
        &id,
        &offset_chars(),
        &v,
    );
    if hit {
        Ok(string_from_chars(out))
    } else {
        Err("projectFile.xml 中未找到对应的 area".to_string())
    }
}

/// A new offset for the area with the given id.
pub struct ProjectAreaOffsetUpdate {
    pub area_id: String,
    pub offset_ms: u64,
}

/// The offset given for the area `area_id`: that of the last update whose trimmed
/// area id is `area_id`; updates with an empty trimmed id count for no area.
pub open spec fn offset_for(updates: Seq<ProjectAreaOffsetUpdate>, area_id: Seq<char>) -> Option<u64>
    decreases updates.len(),
{
    if updates.len() == 0 {
        None
    } else if trim(updates.last().area_id@) == area_id && area_id.len() > 0 {
        Some(updates.last().offset_ms)
    } else {
        offset_for(updates.drop_last(), area_id)
    }
}

/// Some update has a non-empty trimmed area id.
pub open spec fn has_area_update(updates: Seq<ProjectAreaOffsetUpdate>) -> bool {
    exists|i: int| 0 <= i < updates.len() && trim(#[trigger] updates[i].area_id@).len() > 0
}

/// The value of an attribute, or empty when absent.
pub open spec fn attr_or_empty(tag: Seq<char>, a: Seq<char>) -> Seq<char> {
    match attr_value(tag, a) {
        Some(v) => v,
        None => seq![],
    }
}

/// The offset that an `<area>` start tag receives, if any.
pub open spec fn area_offset_hit(
    tag: Seq<char>,
    asset_id: Seq<char>,
    updates: Seq<ProjectAreaOffsetUpdate>,
) -> Option<u64> {
    if attr_or_empty(tag, asset_id_name()) == asset_id {
        offset_for(updates, attr_or_empty(tag, id_name()))
    } else {
        None
    }
}

/// `s` from `from` on with the offsets of `updates` written into the `<area>`
/// start tags of the asset `asset_id`.
pub open spec fn area_offsets_from(
    s: Seq<char>,
    from: int,
    asset_id: Seq<char>,
    updates: Seq<ProjectAreaOffsetUpdate>,
) -> Seq<char>
    decreases s.len() - from,
{
    if from < 0 || from > s.len() {
        seq![]
    } else {
        match next_tag(s, open_pat(area_name()), from) {
            None => s.skip(from),
            Some((t, e)) => {
                proof {
                    lemma_next_tag(s, open_pat(area_name()), from);
                }
                let tag = s.subrange(t, e);
                s.subrange(from, t) + match area_offset_hit(tag, asset_id, updates) {
                    Some(o) => replace_or_insert_attr(tag, offset_name(), decimal(o as nat)),
                    None => tag,
                } + area_offsets_from(s, e, asset_id, updates)
            },
        }
    }
}

/// Some `<area>` start tag from `from` on receives an offset.
pub open spec fn any_area_offset_hit(
    s: Seq<char>,
    from: int,
    asset_id: Seq<char>,
    updates: Seq<ProjectAreaOffsetUpdate>,
) -> bool
    decreases s.len() - from,
{
    if from < 0 || from > s.len() {
        false
    } else {
        match next_tag(s, open_pat(area_name()), from) {
            None => false,
            Some((t, e)) => {
                proof {
                    lemma_next_tag(s, open_pat(area_name()), from);
                }
                area_offset_hit(s.subrange(t, e), asset_id, updates) is Some || any_area_offset_hit(
                    s,
                    e,
                    asset_id,
                    updates,
                )
            },
        }
    }
}

fn offset_for_exec(updates: &[ProjectAreaOffsetUpdate], area_id: &[char]) -> (r: Option<u64>)
    ensures
        r == offset_for(updates@, area_id@),
{
    let mut i = updates.len();
    assert(updates@.take(updates@.len() as int) =~= updates@);
    while i > 0
        invariant
            i <= updates@.len(),
            offset_for(updates@, area_id@) == offset_for(updates@.take(i as int), area_id@),
        decreases i,
    {
        let u = chars_of(updates[i - 1].area_id.as_str());
        let lo = crate::text::skip_ws(&u, 0, u.len());
        let hi = trim_end_pos(&u, lo, u.len());
        let t = crate::text::copy_range(&u, lo, hi);
        proof {
            crate::text::lemma_trim_start_len(u@);
            assert(u@.subrange(0, u@.len() as int) =~= u@);
        }
        assert(t@ == trim(updates@[i - 1].area_id@));
        assert(updates@.take(i as int).last() == updates@[i - 1]);
        assert(updates@.take(i as int).drop_last() =~= updates@.take(i - 1));
        if chars_eq(&t, area_id) && area_id.len() > 0 {
            return Some(updates[i - 1].offset_ms);
        }
        i -= 1;
    }
    None
}

/// The value of the attribute `a` of `tag`, or empty (chars).
fn attr_or_empty_chars(tag: &[char], a: &[char]) -> (r: Vec<char>)
    requires
        a@.len() > 0,
    ensures
        r@ == attr_or_empty(tag@, a@),
{
    match attr_value_chars(tag, a) {
        Some(v) => v,
        None => Vec::new(),
    }
}

/// `project_file_xml` with `offset` set on each `<area>` start tag of the asset
/// `asset_id` whose `id` has an entry in `area_offsets` (the last entry for that
/// id counts).  An error when no entry has a non-empty trimmed area id, or when no
/// tag received an offset.
pub fn update_project_clip_area_offsets(
    project_file_xml: &str,
    asset_id: &str,
    area_offsets: &[ProjectAreaOffsetUpdate],
) -> (r: Result<String, String>)
    ensures
        r is Ok <==> has_area_update(area_offsets@) && any_area_offset_hit(
            project_file_xml@,
            0,
            asset_id@,
            area_offsets@,
        ),
        r matches Ok(x) ==> x@ == area_offsets_from(project_file_xml@, 0, asset_id@, area_offsets@),
        r matches Err(m) ==> if has_area_update(area_offsets@) {
            m@ == "projectFile.xml 涓湭鎵惧埌瀵瑰簲鐨?area"@
        } else {
            m@ == "areaOffsets 涓嶈兘涓虹┖"@
        },
{
    let mut any = false;
    let mut j: usize = 0;
    while j < area_offsets.len()
        invariant
            j <= area_offsets@.len(),
            any <==> exists|i: int| 0 <= i < j && trim(#[trigger] area_offsets@[i].area_id@).len() > 0,
        decreases area_offsets@.len() - j,
    {
        let u = chars_of(area_offsets[j].area_id.as_str());
        let lo = crate::text::skip_ws(&u, 0, u.len());
        let hi = trim_end_pos(&u, lo, u.len());
        proof {
            assert(u@.subrange(0, u@.len() as int) =~= u@);
        }
        assert(trim(area_offsets@[j as int].area_id@).len() == hi - lo);
        if hi > lo {
            any = true;
        }
        j += 1;
    }
    if !any {
        return Err("areaOffsets 涓嶈兘涓虹┖".to_string());
    }
    let s = chars_of(project_file_xml);
    let aid = chars_of(asset_id);
    let open = open_pattern(&area_chars());
    let idn = id_chars();
    let aidn = asset_id_chars();
    let offn = offset_chars();
    let mut out: Vec<char> = Vec::new();
    let mut hit = false;
    let mut pos: usize = 0;
    loop
        invariant_except_break
            out@ + area_offsets_from(s@, pos as int, aid@, area_offsets@) == area_offsets_from(
                s@,
                0,
                aid@,
                area_offsets@,
            ),
            (hit || any_area_offset_hit(s@, pos as int, aid@, area_offsets@))
                == any_area_offset_hit(s@, 0, aid@, area_offsets@),
        invariant
            pos <= s@.len(),
            open@ == open_pat(area_name()),
            idn@ == id_name(),
            aidn@ == asset_id_name(),
            offn@ == offset_name(),
        ensures
            out@ == area_offsets_from(s@, 0, aid@, area_offsets@),
            hit == any_area_offset_hit(s@, 0, aid@, area_offsets@),
        decreases s@.len() - pos,
    {
        match find_next_tag(&s, &open, pos) {
            None => {
                push_range(&mut out, &s, pos, s.len());
                assert(s@.subrange(pos as int, s@.len() as int) =~= s@.skip(pos as int));
                assert(out@ == area_offsets_from(s@, 0, aid@, area_offsets@));
                break;
            },
            Some((t, e)) => {
                proof {
                    lemma_next_tag(s@, open@, pos as int);
                }
                let ghost before = out@;
                push_range(&mut out, &s, pos, t);
                let tag = crate::text::copy_range(&s, t, e);
                let tag_asset = attr_or_empty_chars(&tag, &aidn);
                let found = if chars_eq(&tag_asset, &aid) {
                    let area_id = attr_or_empty_chars(&tag, &idn);
                    offset_for_exec(area_offsets, &area_id)
                } else {
                    None
                };
                assert(found == area_offset_hit(tag@, aid@, area_offsets@));
                match found {
                    Some(o) => {
                        let mut v: Vec<char> = Vec::new();
                        push_u64(&mut v, o);
                        assert(v@ =~= decimal(o as nat));
                        let edited = replace_or_insert_attr_chars(&tag, &offn, &v);
                        push_all(&mut out, &edited);
                        hit = true;
                    },
                    None => {
                        push_all(&mut out, &tag);
                    },
                }
                assert(out@ + area_offsets_from(s@, e as int, aid@, area_offsets@) =~= before
                    + area_offsets_from(s@, pos as int, aid@, area_offsets@));
                pos = e;
            },
        }
    }
    if hit {
        Ok(string_from_chars(out))
    } else {
        Err("projectFile.xml 涓湭鎵惧埌瀵瑰簲鐨?area".to_string())
    }
}

} // verus!
