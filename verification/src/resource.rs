//! File paths written into template and project files: joining relative
//! resource paths onto a directory, and the form a path takes in the XML.

use vstd::prelude::*;
use crate::text::{
    find_from, chars_of, copy_range, find_char_from, first_match, lemma_first_match, matches_at,
    matches_at_exec, push_all, push_range, push_str, string_from_chars, trim, trim_range,
};
use crate::xml::{close_pat, close_pattern, escape_text, find_next_tag, lemma_next_tag, next_tag,
    open_pat, open_pattern, push_escaped_text, unescape, unescape_range};
use crate::attr::{attr_value, attr_value_chars, replace_or_insert_attr, replace_or_insert_attr_chars};
use crate::scan::{is_self_closing, self_closing};
use crate::paths::{absolute_resource, forward_slashes, has_prefix, is_absolute_resource_path,
    is_url_resource_path, url_resource, sanitize_custom_template_key, key_char, map_chars,
    or_default};

verus! {

broadcast use vstd::string::group_string_axioms;

/// How the platform writes paths.
#[derive(Clone, Copy, PartialEq, Eq, Structural)]
pub enum PathStyle {
    /// `/` separates components.
    Unix,
    /// `\` separates components, `/` is accepted too.
    Windows,
}

/// `c` separates path components.
pub open spec fn is_sep(c: char, style: PathStyle) -> bool {
    c == '/' || (style == PathStyle::Windows && c == '\\')
}

fn is_sep_exec(c: char, style: PathStyle) -> (r: bool)
    ensures
        r == is_sep(c, style),
{
    c == '/' || (style == PathStyle::Windows && c == '\\')
}

/// The separator the platform writes.
pub open spec fn sep_char(style: PathStyle) -> char {
    match style {
        PathStyle::Unix => '/',
        PathStyle::Windows => '\\',
    }
}

/// `s` with every `/` replaced by `\`.
pub open spec fn back_slashes(s: Seq<char>) -> Seq<char> {
    Seq::new(
        s.len(),
        |i: int|
            if s[i] == '/' {
                '\\'
            } else {
                s[i]
            },
    )
}

/// A path as the XML files record it: on Windows with `\` separators and without
/// a verbatim prefix (`\\?\UNC\server` becomes `\\server`); elsewhere with `/`
/// separators.
pub open spec fn xml_filepath(p: Seq<char>, style: PathStyle) -> Seq<char> {
    match style {
        PathStyle::Windows => {
            let f = back_slashes(p);
            if has_prefix(f, "\\\\?\\UNC\\"@) {
                "\\\\"@ + f.skip(8)
            } else if has_prefix(f, "\\\\?\\"@) {
                f.skip(4)
            } else {
                f
            }
        },
        PathStyle::Unix => forward_slashes(p),
    }
}

/// The path `path` as the XML files record it (see `xml_filepath`).
pub fn path_to_xml_filepath(path: &str, style: PathStyle) -> (r: String)
    ensures
        r@ == xml_filepath(path@, style),
{
    let p = chars_of(path);
    let mut f: Vec<char> = Vec::new();
    let mut i: usize = 0;
    while i < p.len()
        invariant
            i <= p@.len(),
            f@ == (match style {
                PathStyle::Windows => back_slashes(p@.take(i as int)),
                PathStyle::Unix => forward_slashes(p@.take(i as int)),
            }),
        decreases p@.len() - i,
    {
        let c = p[i];
        let d = match style {
            PathStyle::Windows => if c == '/' {
                '\\'
            } else {
                c
            },
            PathStyle::Unix => if c == '\\' {
                '/'
            } else {
                c
            },
        };
        f.push(d);
        i += 1;
        assert(f@ =~= (match style {
            PathStyle::Windows => back_slashes(p@.take(i as int)),
            PathStyle::Unix => forward_slashes(p@.take(i as int)),
        }));
    }
    assert(p@.take(i as int) =~= p@);
    match style {
        PathStyle::Unix => string_from_chars(f),
        PathStyle::Windows => {
            let unc = chars_of("\\\\?\\UNC\\");
            let verbatim = chars_of("\\\\?\\");
            proof {
                reveal_strlit("\\\\?\\UNC\\");
                reveal_strlit("\\\\?\\");
            }
            if matches_at_exec(&f, &unc, 0) {
                let mut out: Vec<char> = Vec::new();
                push_str(&mut out, "\\\\");
                push_range(&mut out, &f, 8, f.len());
                assert(f@.subrange(8, f@.len() as int) =~= f@.skip(8));
                string_from_chars(out)
            } else if matches_at_exec(&f, &verbatim, 0) {
                let out = copy_range(&f, 4, f.len());
                assert(f@.subrange(4, f@.len() as int) =~= f@.skip(4));
                string_from_chars(out)
            } else {
                string_from_chars(f)
            }
        },
    }
}

// ---------------------------------------------------------------------------
// Joining
// ---------------------------------------------------------------------------

/// `path` with the component `seg` appended, as `PathBuf::push` appends a plain
/// relative name: a separator is added unless the path is empty or already ends
/// with one.
pub open spec fn push_seg(path: Seq<char>, seg: Seq<char>, style: PathStyle) -> Seq<char> {
    if path.len() == 0 || is_sep(path.last(), style) {
        path + seg
    } else {
        path + seq![sep_char(style)] + seg
    }
}

/// `path` with the `/`-separated segments of `r` from `from` on appended, empty
/// and `.` segments skipped.
pub open spec fn join_from(path: Seq<char>, r: Seq<char>, from: int, style: PathStyle) -> Seq<char>
    decreases r.len() - from,
{
    if from < 0 || from > r.len() {
        path
    } else {
        let end = match first_match(r, seq!['/'], from) {
            Some(i) => i,
            None => r.len() as int,
        };
        proof {
            lemma_first_match(r, seq!['/'], from);
        }
        let seg = r.subrange(from, end);
        let p2 = if seg.len() == 0 || seg == seq!['.'] {
            path
        } else {
            push_seg(path, seg, style)
        };
        if end >= r.len() {
            p2
        } else {
            join_from(p2, r, end + 1, style)
        }
    }
}

/// `base` with the relative path `relative` appended, its `\` read as `/`.
pub open spec fn joined(base: Seq<char>, relative: Seq<char>, style: PathStyle) -> Seq<char> {
    join_from(base, forward_slashes(relative), 0, style)
}

fn push_seg_exec(path: &mut Vec<char>, seg: &[char], style: PathStyle)
    ensures
        final(path)@ == push_seg(old(path)@, seg@, style),
{
    if path.len() == 0 || is_sep_exec(path[path.len() - 1], style) {
        push_all(path, seg);
    } else {
        let c = match style {
            PathStyle::Unix => '/',
            PathStyle::Windows => '\\',
        };
        path.push(c);
        push_all(path, seg);
    }
}

fn joined_chars(base: &[char], relative: &[char], style: PathStyle) -> (r: Vec<char>)
    ensures
        r@ == joined(base@, relative@, style),
{
    let mut r: Vec<char> = Vec::new();
    let mut k: usize = 0;
    while k < relative.len()
        invariant
            k <= relative@.len(),
            r@ == forward_slashes(relative@.take(k as int)),
        decreases relative@.len() - k,
    {
        r.push(if relative[k] == '\\' { '/' } else { relative[k] });
        k += 1;
        assert(r@ =~= forward_slashes(relative@.take(k as int)));
    }
    assert(relative@.take(k as int) =~= relative@);
    let mut path: Vec<char> = Vec::new();
    push_all(&mut path, base);
    assert(path@ =~= base@);
    let rlen = r.len();
    let mut from: usize = 0;
    loop
        invariant
            from <= r@.len(),
            rlen == r@.len(),
            join_from(path@, r@, from as int, style) == joined(base@, relative@, style),
        decreases r@.len() - from,
    {
        let end = match find_char_from(&r, '/', from) {
            Some(i) => {
                proof {
                    lemma_first_match(r@, seq!['/'], from as int);
                }
                i
            },
            None => r.len(),
        };
        let seg = copy_range(&r, from, end);
        let skip = seg.len() == 0 || (seg.len() == 1 && seg[0] == '.');
        assert(skip == (seg@.len() == 0 || seg@ == seq!['.'])) by {
            if seg@.len() == 1 && seg@[0] == '.' {
                assert(seg@ =~= seq!['.']);
            }
        }
        let ghost before = path@;
        if !skip {
            push_seg_exec(&mut path, &seg, style);
        }
        if end >= r.len() {
            return path;
        }
        from = end + 1;
    }
}

/// `base` with the relative path `relative` appended: its segments, split at `/`
/// and `\`, are pushed one by one, empty and `.` segments skipped.
pub fn join_resource_relative(base: &str, relative: &str, style: PathStyle) -> (r: String)
    ensures
        r@ == joined(base@, relative@, style),
{
    string_from_chars(joined_chars(&chars_of(base), &chars_of(relative), style))
}

// ---------------------------------------------------------------------------
// Resolving template resources
// ---------------------------------------------------------------------------

/// `s` without its leading `./` prefixes.
pub open spec fn strip_dot_slash(s: Seq<char>) -> Seq<char>
    decreases s.len(),
{
    if s.len() >= 2 && s[0] == '.' && s[1] == '/' {
        strip_dot_slash(s.skip(2))
    } else {
        s
    }
}

/// Where a template's resource path points, as the XML files record it: a blank,
/// URL or absolute path is kept (trimmed); a relative one is joined onto the
/// assets directory, after `template/assets/` or `assets/` is dropped, or onto
/// the template directory, after `template/` is dropped.
pub open spec fn resolved_resource(
    template_dir: Seq<char>,
    assets_dir: Seq<char>,
    filepath: Seq<char>,
    style: PathStyle,
) -> Seq<char> {
    let t = trim(filepath);
    if t.len() == 0 || url_resource(t) || absolute_resource(t) {
        t
    } else {
        let n = strip_dot_slash(forward_slashes(t));
        if has_prefix(n, "template/assets/"@) {
            xml_filepath(joined(assets_dir, n.skip(16), style), style)
        } else if has_prefix(n, "assets/"@) {
            xml_filepath(joined(assets_dir, n.skip(7), style), style)
        } else if has_prefix(n, "template/"@) {
            xml_filepath(joined(template_dir, n.skip(9), style), style)
        } else {
            xml_filepath(joined(assets_dir, n, style), style)
        }
    }
}

/// Where the resource path `filepath` of a template points (see
/// `resolved_resource`).
pub fn resolve_template_resource_filepath(
    template_dir: &str,
    assets_dir: &str,
    filepath: &str,
    style: PathStyle,
) -> (r: String)
    ensures
        r@ == resolved_resource(template_dir@, assets_dir@, filepath@, style),
{
    let f = chars_of(filepath);
    let (a, b) = trim_range(&f, 0, f.len());
    assert(f@.subrange(0, f@.len() as int) =~= f@);
    let t = copy_range(&f, a, b);
    let ts = string_from_chars(copy_range(&f, a, b));
    if t.len() == 0 || is_url_resource_path(ts.as_str()) || is_absolute_resource_path(ts.as_str()) {
        return ts;
    }
    let mut n: Vec<char> = Vec::new();
    let mut k: usize = 0;
    while k < t.len()
        invariant
            k <= t@.len(),
            n@ == forward_slashes(t@.take(k as int)),
        decreases t@.len() - k,
    {
        n.push(if t[k] == '\\' { '/' } else { t[k] });
        k += 1;
        assert(n@ =~= forward_slashes(t@.take(k as int)));
    }
    assert(t@.take(k as int) =~= t@);
    let mut start: usize = 0;
    let nlen = n.len();
    assert(n@.skip(0) =~= n@);
    while nlen - start >= 2 && n[start] == '.' && n[start + 1] == '/'
        invariant
            start <= n@.len(),
            nlen == n@.len(),
            strip_dot_slash(n@) == strip_dot_slash(n@.skip(start as int)),
        decreases n@.len() - start,
    {
        assert(n@.skip(start as int).skip(2) =~= n@.skip(start + 2));
        start += 2;
    }
    let rest = copy_range(&n, start, n.len());
    assert(rest@ =~= n@.skip(start as int));
    let td = chars_of(template_dir);
    let ad = chars_of(assets_dir);
    let p1 = chars_of("template/assets/");
    let p2 = chars_of("assets/");
    let p3 = chars_of("template/");
    proof {
        reveal_strlit("template/assets/");
        reveal_strlit("assets/");
        reveal_strlit("template/");
    }
    let joined_path = if matches_at_exec(&rest, &p1, 0) {
        let tail = copy_range(&rest, 16, rest.len());
        assert(tail@ =~= rest@.skip(16));
        joined_chars(&ad, &tail, style)
    } else if matches_at_exec(&rest, &p2, 0) {
        let tail = copy_range(&rest, 7, rest.len());
        assert(tail@ =~= rest@.skip(7));
        joined_chars(&ad, &tail, style)
    } else if matches_at_exec(&rest, &p3, 0) {
        let tail = copy_range(&rest, 9, rest.len());
        assert(tail@ =~= rest@.skip(9));
        joined_chars(&td, &tail, style)
    } else {
        joined_chars(&ad, &rest, style)
    };
    let js = string_from_chars(joined_path);
    path_to_xml_filepath(js.as_str(), style)
}


// ---------------------------------------------------------------------------
// Normalising a template's resource paths
// ---------------------------------------------------------------------------

/// An `<asset>` start tag with its `filepath` resolved, when it has one.
pub open spec fn asset_tag_resolved(
    tag: Seq<char>,
    template_dir: Seq<char>,
    assets_dir: Seq<char>,
    style: PathStyle,
) -> Seq<char> {
    match attr_value(tag, "filepath"@) {
        Some(fp) => replace_or_insert_attr(
            tag,
            "filepath"@,
            resolved_resource(template_dir, assets_dir, fp, style),
        ),
        None => tag,
    }
}

/// `s` from `from` on with the `filepath` of every `<asset>` start tag resolved.
pub open spec fn assets_resolved_from(
    s: Seq<char>,
    from: int,
    template_dir: Seq<char>,
    assets_dir: Seq<char>,
    style: PathStyle,
) -> Seq<char>
    decreases s.len() - from,
{
    if from < 0 || from > s.len() {
        seq![]
    } else {
        match next_tag(s, open_pat("asset"@), from) {
            None => s.skip(from),
            Some((t, e)) => {
                proof {
                    lemma_next_tag(s, open_pat("asset"@), from);
                }
                s.subrange(from, t) + asset_tag_resolved(s.subrange(t, e), template_dir, assets_dir, style)
                    + assets_resolved_from(s, e, template_dir, assets_dir, style)
            },
        }
    }
}

fn assets_resolved_chars(s: &[char], template_dir: &str, assets_dir: &str, style: PathStyle) -> (r:
    Vec<char>)
    ensures
        r@ == assets_resolved_from(s@, 0, template_dir@, assets_dir@, style),
{
    let open = chars_of("<asset");
    let fp = chars_of("filepath");
    proof {
        reveal_strlit("<asset");
        reveal_strlit("asset");
        reveal_strlit("filepath");
        assert(open@ =~= open_pat("asset"@));
    }
    let slen = s.len();
    let mut out: Vec<char> = Vec::new();
    let mut pos: usize = 0;
    loop
        invariant
            slen == s@.len(),
            pos <= s@.len(),
            open@ == open_pat("asset"@),
            fp@ == "filepath"@,
            fp@.len() > 0,
            out@ + assets_resolved_from(s@, pos as int, template_dir@, assets_dir@, style)
                == assets_resolved_from(s@, 0, template_dir@, assets_dir@, style),
        decreases s@.len() - pos,
    {
        let ghost before = out@;
        match find_next_tag(s, &open, pos) {
            None => {
                push_range(&mut out, s, pos, s.len());
                assert(out@ =~= before + s@.skip(pos as int));
                return out;
            },
            Some((t, e)) => {
                proof {
                    lemma_next_tag(s@, open@, pos as int);
                }
                push_range(&mut out, s, pos, t);
                let tag = copy_range(s, t, e);
                match attr_value_chars(&tag, &fp) {
                    Some(v) => {
                        let vs = string_from_chars(v);
                        let resolved = resolve_template_resource_filepath(
                            template_dir,
                            assets_dir,
                            vs.as_str(),
                            style,
                        );
                        let edited = replace_or_insert_attr_chars(&tag, &fp, &chars_of(resolved.as_str()));
                        push_all(&mut out, &edited);
                    },
                    None => {
                        push_all(&mut out, &tag);
                    },
                }
                assert(out@ + assets_resolved_from(s@, e as int, template_dir@, assets_dir@, style)
                    =~= before + assets_resolved_from(s@, pos as int, template_dir@, assets_dir@, style));
                pos = e;
            },
        }
    }
}

/// `xml_content` with the `filepath` of every `<asset>` start tag resolved to
/// where it points (see `resolved_resource`).
pub fn normalize_template_asset_filepaths(
    xml_content: &str,
    template_dir: &str,
    assets_dir: &str,
    style: PathStyle,
) -> (r: String)
    ensures
        r@ == assets_resolved_from(xml_content@, 0, template_dir@, assets_dir@, style),
{
    let s = chars_of(xml_content);
    string_from_chars(assets_resolved_chars(&s, template_dir, assets_dir, style))
}

/// The text of a resource element resolved: kept when it holds markup, else
/// decoded, resolved and escaped again.
pub open spec fn element_value_resolved(
    v: Seq<char>,
    template_dir: Seq<char>,
    assets_dir: Seq<char>,
    style: PathStyle,
) -> Seq<char> {
    if v.contains('<') {
        v
    } else {
        escape_text(resolved_resource(template_dir, assets_dir, unescape(v), style))
    }
}

/// `s` from `from` on with the text of every element `<name>…</name>` resolved;
/// self-closing elements are kept, and the scan stops at an element without end
/// tag, keeping the rest.
pub open spec fn elements_resolved_from(
    s: Seq<char>,
    name: Seq<char>,
    from: int,
    template_dir: Seq<char>,
    assets_dir: Seq<char>,
    style: PathStyle,
) -> Seq<char>
    decreases s.len() - from,
{
    if from < 0 || from > s.len() {
        seq![]
    } else {
        match next_tag(s, open_pat(name), from) {
            None => s.skip(from),
            Some((t, e)) => {
                proof {
                    lemma_next_tag(s, open_pat(name), from);
                    lemma_first_match(s, close_pat(name), e);
                }
                if self_closing(s.subrange(t, e)) {
                    s.subrange(from, e) + elements_resolved_from(s, name, e, template_dir, assets_dir, style)
                } else {
                    match first_match(s, close_pat(name), e) {
                        None => s.skip(from),
                        Some(c) => s.subrange(from, e) + element_value_resolved(
                            s.subrange(e, c),
                            template_dir,
                            assets_dir,
                            style,
                        ) + close_pat(name) + elements_resolved_from(
                            s,
                            name,
                            c + close_pat(name).len(),
                            template_dir,
                            assets_dir,
                            style,
                        ),
                    }
                }
            },
        }
    }
}

fn elements_resolved_chars(
    s: &[char],
    name: &[char],
    template_dir: &str,
    assets_dir: &str,
    style: PathStyle,
) -> (r: Vec<char>)
    ensures
        r@ == elements_resolved_from(s@, name@, 0, template_dir@, assets_dir@, style),
{
    let open = open_pattern(name);
    let close = close_pattern(name);
    let slen = s.len();
    let mut out: Vec<char> = Vec::new();
    let mut pos: usize = 0;
    loop
        invariant
            slen == s@.len(),
            pos <= s@.len(),
            open@ == open_pat(name@),
            close@ == close_pat(name@),
            out@ + elements_resolved_from(s@, name@, pos as int, template_dir@, assets_dir@, style)
                == elements_resolved_from(s@, name@, 0, template_dir@, assets_dir@, style),
        decreases s@.len() - pos,
    {
        let ghost before = out@;
        match find_next_tag(s, &open, pos) {
            None => {
                push_range(&mut out, s, pos, s.len());
                assert(out@ =~= before + s@.skip(pos as int));
                return out;
            },
            Some((t, e)) => {
                proof {
                    lemma_next_tag(s@, open@, pos as int);
                    lemma_first_match(s@, close@, e as int);
                }
                if is_self_closing(s, t, e) {
                    push_range(&mut out, s, pos, e);
                    assert(out@ + elements_resolved_from(s@, name@, e as int, template_dir@, assets_dir@, style)
                        =~= before + elements_resolved_from(s@, name@, pos as int, template_dir@, assets_dir@, style));
                    pos = e;
                } else {
                    match find_from(s, &close, e) {
                        None => {
                            push_range(&mut out, s, pos, s.len());
                            assert(out@ =~= before + s@.skip(pos as int));
                            return out;
                        },
                        Some(c) => {
                            push_range(&mut out, s, pos, e);
                            let value = copy_range(s, e, c);
                            let has_lt = find_char_from(&value, '<', 0).is_some();
                            proof {
                                lemma_first_match(value@, seq!['<'], 0);
                                if value@.contains('<') {
                                    let j = choose|j: int| 0 <= j < value@.len() && value@[j] == '<';
                                    assert(value@.subrange(j, j + 1) =~= seq!['<']);
                                    assert(matches_at(value@, seq!['<'], j));
                                }
                                if has_lt {
                                    let j = first_match(value@, seq!['<'], 0)->0;
                                    assert(value@.subrange(j, j + 1)[0] == value@[j]);
                                }
                            }
                            if has_lt {
                                push_all(&mut out, &value);
                            } else {
                                let decoded = unescape_range(&value, 0, value.len());
                                assert(value@.subrange(0, value@.len() as int) =~= value@);
                                let ds = string_from_chars(decoded);
                                let resolved = resolve_template_resource_filepath(
                                    template_dir,
                                    assets_dir,
                                    ds.as_str(),
                                    style,
                                );
                                push_escaped_text(&mut out, &chars_of(resolved.as_str()));
                            }
                            push_all(&mut out, &close);
                            assert(out@ + elements_resolved_from(s@, name@, c + close@.len(), template_dir@, assets_dir@, style)
                                =~= before + elements_resolved_from(s@, name@, pos as int, template_dir@, assets_dir@, style));
                            pos = c + close.len();
                        },
                    }
                }
            },
        }
    }
}

/// `xml_content` with the text of every `<tag_name>` element resolved (see
/// `element_value_resolved`).
pub fn normalize_template_resource_element(
    xml_content: &str,
    tag_name: &str,
    template_dir: &str,
    assets_dir: &str,
    style: PathStyle,
) -> (r: String)
    ensures
        r@ == elements_resolved_from(xml_content@, tag_name@, 0, template_dir@, assets_dir@, style),
{
    let s = chars_of(xml_content);
    let n = chars_of(tag_name);
    string_from_chars(elements_resolved_chars(&s, &n, template_dir, assets_dir, style))
}

/// A template with all its resource paths resolved: the `filepath` attributes of
/// its assets, then its `<demo-path>` elements, then its `<filepath>` elements.
pub open spec fn template_resources_resolved(
    s: Seq<char>,
    template_dir: Seq<char>,
    assets_dir: Seq<char>,
    style: PathStyle,
) -> Seq<char> {
    let a = assets_resolved_from(s, 0, template_dir, assets_dir, style);
    let b = elements_resolved_from(a, "demo-path"@, 0, template_dir, assets_dir, style);
    elements_resolved_from(b, "filepath"@, 0, template_dir, assets_dir, style)
}

/// `xml_content` with all its resource paths resolved (see
/// `template_resources_resolved`).
pub fn normalize_template_resource_paths(
    xml_content: &str,
    template_dir: &str,
    assets_dir: &str,
    style: PathStyle,
) -> (r: String)
    ensures
        r@ == template_resources_resolved(xml_content@, template_dir@, assets_dir@, style),
{
    let s = chars_of(xml_content);
    let a = assets_resolved_chars(&s, template_dir, assets_dir, style);
    let b = elements_resolved_chars(&a, &chars_of("demo-path"), template_dir, assets_dir, style);
    let c = elements_resolved_chars(&b, &chars_of("filepath"), template_dir, assets_dir, style);
    string_from_chars(c)
}


// ---------------------------------------------------------------------------
// Output paths
// ---------------------------------------------------------------------------

/// An absolute path: on Unix one that starts with `/`; on Windows one that
/// starts with a drive letter, `:` and a separator, or with two separators (a
/// UNC, device or verbatim path).
pub open spec fn absolute_path(p: Seq<char>, style: PathStyle) -> bool {
    match style {
        PathStyle::Unix => p.len() > 0 && p[0] == '/',
        PathStyle::Windows => (p.len() >= 3 && (('a' <= p[0] && p[0] <= 'z') || ('A' <= p[0]
            && p[0] <= 'Z')) && p[1] == ':' && is_sep(p[2], style)) || (p.len() >= 2 && is_sep(
            p[0],
            style,
        ) && is_sep(p[1], style)),
    }
}

/// `p` without its trailing separators and `.` components.
pub open spec fn strip_tail(p: Seq<char>, style: PathStyle) -> Seq<char>
    decreases p.len(),
{
    if p.len() > 0 && is_sep(p.last(), style) {
        strip_tail(p.drop_last(), style)
    } else if p.len() >= 2 && p.last() == '.' && is_sep(p[p.len() - 2], style) {
        strip_tail(p.drop_last(), style)
    } else {
        p
    }
}

/// The text after the last separator of `p`.
pub open spec fn last_component(p: Seq<char>, style: PathStyle) -> Seq<char>
    decreases p.len(),
{
    if p.len() == 0 {
        p
    } else if is_sep(p.last(), style) {
        seq![]
    } else {
        last_component(p.drop_last(), style).push(p.last())
    }
}

/// The position of the last `.` of `name` that is not its first character.
pub open spec fn last_dot(name: Seq<char>, i: int) -> Option<int>
    decreases i,
{
    if i <= 0 || i > name.len() {
        None
    } else if name[i - 1] == '.' && i - 1 > 0 {
        Some(i - 1)
    } else {
        last_dot(name, i - 1)
    }
}

/// The output path for a video: the trimmed `value`, which must be absolute and
/// name a file; `.mp4` is added when it has no extension or an empty one, and
/// any other extension than `mp4` (in any ASCII case) is refused.
pub open spec fn output_path(value: Seq<char>, style: PathStyle) -> Result<Seq<char>, Seq<char>> {
    let v = trim(value);
    if v.len() == 0 {
        Err("输出文件路径不能为空"@)
    } else if !absolute_path(v, style) {
        Err("输出文件路径必须是绝对路径"@)
    } else {
        let t = strip_tail(v, style);
        let name = last_component(t, style);
        if name.len() == 0 || name == ".."@ || (style == PathStyle::Windows && t.len() == 2 && t[1]
            == ':') {
            Err("输出文件名不能为空"@)
        } else {
            match last_dot(name, name.len() as int) {
                None => Ok(t + ".mp4"@),
                Some(d) => {
                    let ext = name.skip(d + 1);
                    if ext.len() == 0 {
                        Ok(t.drop_last() + ".mp4"@)
                    } else if crate::props::ascii_lower_eq(ext, "mp4"@) {
                        Ok(v)
                    } else {
                        Err("导出文件必须使用 .mp4 后缀"@)
                    }
                },
            }
        }
    }
}

fn tail_and_name(p: &[char], style: PathStyle) -> (r: (Vec<char>, Vec<char>))
    ensures
        r.0@ == strip_tail(p@, style),
        r.1@ == last_component(r.0@, style),
{
    let mut tl = p.len();
    assert(p@.take(p@.len() as int) =~= p@);
    while tl > 0 && (is_sep_exec(p[tl - 1], style) || (tl >= 2 && p[tl - 1] == '.' && is_sep_exec(
        p[tl - 2],
        style,
    )))
        invariant
            tl <= p@.len(),
            strip_tail(p@, style) == strip_tail(p@.take(tl as int), style),
        decreases tl,
    {
        assert(p@.take(tl as int).drop_last() =~= p@.take(tl - 1));
        assert(p@.take(tl as int).last() == p@[tl - 1]);
        assert(tl >= 2 ==> p@.take(tl as int)[tl - 2] == p@[tl - 2]);
        tl -= 1;
    }
    assert(tl > 0 ==> p@.take(tl as int).last() == p@[tl - 1]);
    assert(tl >= 2 ==> p@.take(tl as int)[tl - 2] == p@[tl - 2]);
    let t = copy_range(p, 0, tl);
    assert(t@ =~= p@.take(tl as int));
    let mut ns = t.len();
    assert(t@.take(t@.len() as int) =~= t@);
    assert(t@.skip(t@.len() as int) =~= Seq::<char>::empty());
    while ns > 0 && !is_sep_exec(t[ns - 1], style)
        invariant
            ns <= t@.len(),
            last_component(t@, style) == last_component(t@.take(ns as int), style) + t@.skip(
                ns as int,
            ),
        decreases ns,
    {
        assert(t@.take(ns as int).drop_last() =~= t@.take(ns - 1));
        assert(t@.take(ns as int).last() == t@[ns - 1]);
        assert(last_component(t@.take(ns - 1), style).push(t@[ns - 1]) + t@.skip(ns as int)
            =~= last_component(t@.take(ns - 1), style) + t@.skip(ns - 1));
        ns -= 1;
    }
    if ns == 0 {
        assert(t@.take(0) =~= Seq::<char>::empty());
    } else {
        assert(t@.take(ns as int).last() == t@[ns - 1]);
    }
    assert(last_component(t@.take(ns as int), style) =~= Seq::<char>::empty());
    let name = copy_range(&t, ns, t.len());
    assert(name@ =~= t@.skip(ns as int));
    (t, name)
}

/// The output path for a composed video (see `output_path`).
pub fn normalize_composer_output_path(value: &str, style: PathStyle) -> (r: Result<String, String>)
    ensures
        match output_path(value@, style) {
            Ok(x) => r matches Ok(y) && y@ == x,
            Err(e) => r matches Err(m) && m@ == e,
        },
{
    let raw = chars_of(value);
    let (a, b) = trim_range(&raw, 0, raw.len());
    assert(raw@.subrange(0, raw@.len() as int) =~= raw@);
    let v = copy_range(&raw, a, b);
    if v.len() == 0 {
        return Err("输出文件路径不能为空".to_string());
    }
    let absolute = match style {
        PathStyle::Unix => v[0] == '/',
        PathStyle::Windows => (v.len() >= 3 && (('a' <= v[0] && v[0] <= 'z') || ('A' <= v[0]
            && v[0] <= 'Z')) && v[1] == ':' && is_sep_exec(v[2], style)) || (v.len() >= 2
            && is_sep_exec(v[0], style) && is_sep_exec(v[1], style)),
    };
    if !absolute {
        return Err("输出文件路径必须是绝对路径".to_string());
    }
    let (t, name) = tail_and_name(&v, style);
    let dotdot = vec!['.', '.'];
    assert(dotdot@ =~= ".."@) by {
        reveal_strlit("..");
    }
    let windows_drive = match style {
        PathStyle::Windows => t.len() == 2 && t[1] == ':',
        PathStyle::Unix => false,
    };
    if name.len() == 0 || crate::edit::chars_eq(&name, &dotdot) || windows_drive {
        return Err("输出文件名不能为空".to_string());
    }
    let mut i = name.len();
    while i > 0 && !(name[i - 1] == '.' && i - 1 > 0)
        invariant
            i <= name@.len(),
            last_dot(name@, name@.len() as int) == last_dot(name@, i as int),
        decreases i,
    {
        i -= 1;
    }
    let mut out: Vec<char> = Vec::new();
    if i == 0 {
        push_all(&mut out, &t);
        push_str(&mut out, ".mp4");
        return Ok(string_from_chars(out));
    }
    let d = i - 1;
    let ext = copy_range(&name, d + 1, name.len());
    assert(ext@ =~= name@.skip(d + 1));
    if ext.len() == 0 {
        push_range(&mut out, &t, 0, t.len() - 1);
        push_str(&mut out, ".mp4");
        assert(t@.subrange(0, t@.len() - 1) =~= t@.drop_last());
        return Ok(string_from_chars(out));
    }
    if crate::props::ascii_lower_eq_exec(&ext, &chars_of("mp4")) {
        Ok(string_from_chars(v))
    } else {
        Err("导出文件必须使用 .mp4 后缀".to_string())
    }
}

/// The directory of a cached template, its template file and its assets
/// directory: `template_root` joined with the sanitised template id, then
/// `template.xml` and `assets`.
pub fn cached_template_paths(template_root: &str, template_id: &str, style: PathStyle) -> (r: (
    String,
    String,
    String,
))
    ensures
        ({
            let dir = push_seg(
                template_root@,
                or_default(
                    map_chars(template_id@, |c: char| crate::paths::name_char(c)),
                    "template"@,
                ),
                style,
            );
            r.0@ == dir && r.1@ == push_seg(dir, "template.xml"@, style) && r.2@ == push_seg(
                dir,
                "assets"@,
                style,
            )
        }),
{
    let name = crate::paths::sanitize_name(template_id);
    let mut dir: Vec<char> = chars_of(template_root);
    push_seg_exec(&mut dir, &chars_of(name.as_str()), style);
    let mut file: Vec<char> = Vec::new();
    push_all(&mut file, &dir);
    assert(file@ =~= dir@);
    push_seg_exec(&mut file, &chars_of("template.xml"), style);
    let mut assets: Vec<char> = Vec::new();
    push_all(&mut assets, &dir);
    assert(assets@ =~= dir@);
    push_seg_exec(&mut assets, &chars_of("assets"), style);
    (string_from_chars(dir), string_from_chars(file), string_from_chars(assets))
}

/// The directory of the local custom template `local_template_key` under
/// `project_root`.  An error when the trimmed key is empty or is not a valid key
/// (its sanitised form differs).
pub fn custom_template_upload_dir(project_root: &str, local_template_key: &str, style: PathStyle) -> (r:
    Result<String, String>)
    ensures
        ({
            let key = trim(local_template_key@);
            if key.len() == 0 || or_default(map_chars(key, |c: char| key_char(c)), "template"@)
                != key {
                r matches Err(m) && m@ == "本地模板目录名无效"@
            } else {
                r matches Ok(d) && d@ == push_seg(project_root@, key, style)
            }
        }),
{
    let raw = chars_of(local_template_key);
    let (a, b) = trim_range(&raw, 0, raw.len());
    assert(raw@.subrange(0, raw@.len() as int) =~= raw@);
    let key = copy_range(&raw, a, b);
    if key.len() == 0 {
        return Err("本地模板目录名无效".to_string());
    }
    let ks = string_from_chars(copy_range(&raw, a, b));
    let sanitized = sanitize_custom_template_key(ks.as_str());
    if !crate::edit::chars_eq(&chars_of(sanitized.as_str()), &key) {
        return Err("本地模板目录名无效".to_string());
    }
    let mut dir: Vec<char> = chars_of(project_root);
    push_seg_exec(&mut dir, &key, style);
    Ok(string_from_chars(dir))
}


// ---------------------------------------------------------------------------
// Candidate paths
// ---------------------------------------------------------------------------

/// The path `asset_path` relative to the directory `dir`, when it lies inside:
/// its text after `dir` (without trailing separators) and the separators that
/// follow.
pub open spec fn relative_to(asset_path: Seq<char>, dir: Seq<char>, style: PathStyle) -> Option<
    Seq<char>,
> {
    let base = strip_tail(dir, style);
    if base.len() <= asset_path.len() && asset_path.take(base.len() as int) == base && (
    asset_path.len() == base.len() || is_sep(asset_path[base.len() as int], style)) {
        Some(strip_leading_seps(asset_path.skip(base.len() as int), style))
    } else {
        None
    }
}

/// `s` without its leading separators.
pub open spec fn strip_leading_seps(s: Seq<char>, style: PathStyle) -> Seq<char>
    decreases s.len(),
{
    if s.len() > 0 && is_sep(s[0], style) {
        strip_leading_seps(s.drop_first(), style)
    } else {
        s
    }
}

/// The file paths by which a project file may refer to the asset at
/// `asset_path`: the path as the XML records it, and, when the asset lies in the
/// project directory, `project/` and its relative path with `/` separators.
pub open spec fn asset_path_candidates(asset_path: Seq<char>, project_dir: Seq<char>, style: PathStyle) -> Seq<
    Seq<char>,
> {
    let first = seq![xml_filepath(asset_path, style)];
    match relative_to(asset_path, project_dir, style) {
        Some(rel) => first.push("project/"@ + forward_slashes(rel)),
        None => first,
    }
}

/// The file paths by which a project file may refer to an asset (see
/// `asset_path_candidates`).
pub fn project_filepath_candidates_from_asset_path(
    project_dir: &str,
    asset_path: &str,
    style: PathStyle,
) -> (r: Vec<String>)
    ensures
        r@.map_values(|x: String| x@) == asset_path_candidates(asset_path@, project_dir@, style),
{
    let first = path_to_xml_filepath(asset_path, style);
    let mut r: Vec<String> = Vec::new();
    r.push(first);
    let d = chars_of(project_dir);
    let a = chars_of(asset_path);
    let mut bl = d.len();
    assert(d@.take(d@.len() as int) =~= d@);
    while bl > 0 && (is_sep_exec(d[bl - 1], style) || (bl >= 2 && d[bl - 1] == '.' && is_sep_exec(
        d[bl - 2],
        style,
    )))
        invariant
            bl <= d@.len(),
            strip_tail(d@, style) == strip_tail(d@.take(bl as int), style),
        decreases bl,
    {
        assert(d@.take(bl as int).drop_last() =~= d@.take(bl - 1));
        assert(d@.take(bl as int).last() == d@[bl - 1]);
        assert(bl >= 2 ==> d@.take(bl as int)[bl - 2] == d@[bl - 2]);
        bl -= 1;
    }
    assert(bl > 0 ==> d@.take(bl as int).last() == d@[bl - 1]);
    assert(bl >= 2 ==> d@.take(bl as int)[bl - 2] == d@[bl - 2]);
    let base = copy_range(&d, 0, bl);
    assert(base@ =~= d@.take(bl as int));
    let inside = base.len() <= a.len() && matches_at_exec(&a, &base, 0) && (a.len() == base.len()
        || is_sep_exec(a[base.len()], style));
    assert(inside == (base@.len() <= a@.len() && a@.take(base@.len() as int) == base@ && (a@.len()
        == base@.len() || is_sep(a@[base@.len() as int], style)))) by {
        if base@.len() <= a@.len() {
            assert(a@.subrange(0, base@.len() as int) =~= a@.take(base@.len() as int));
        }
    }
    if inside {
        let mut k = base.len();
        assert(a@.skip(k as int) =~= a@.skip(base@.len() as int));
        while k < a.len() && is_sep_exec(a[k], style)
            invariant
                base@.len() <= k <= a@.len(),
                strip_leading_seps(a@.skip(base@.len() as int), style) == strip_leading_seps(
                    a@.skip(k as int),
                    style,
                ),
            decreases a@.len() - k,
        {
            assert(a@.skip(k as int).drop_first() =~= a@.skip(k + 1));
            k += 1;
        }
        let mut out: Vec<char> = Vec::new();
        push_str(&mut out, "project/");
        let ghost before = out@;
        let mut j = k;
        while j < a.len()
            invariant
                k <= j <= a@.len(),
                out@ == before + forward_slashes(a@.subrange(k as int, j as int)),
            decreases a@.len() - j,
        {
            out.push(if a[j] == '\\' { '/' } else { a[j] });
            j += 1;
            assert(out@ =~= before + forward_slashes(a@.subrange(k as int, j as int)));
        }
        assert(a@.subrange(k as int, a@.len() as int) =~= a@.skip(k as int));
        let ghost old_r = r@;
        r.push(string_from_chars(out));
        assert(r@.map_values(|x: String| x@) =~= old_r.map_values(|x: String| x@).push(
            r@[1]@,
        ));
    }
    assert(r@.map_values(|x: String| x@) =~= asset_path_candidates(asset_path@, project_dir@, style));
    r
}

/// The inner text of the first `<track id="bg">` element's first `<filepath>`,
/// trimmed and decoded, or empty.
pub open spec fn background_path(blocks: Seq<(Seq<char>, Seq<char>)>, i: int) -> Seq<char>
    decreases blocks.len() - i,
{
    if i < 0 || i >= blocks.len() {
        seq![]
    } else if attr_value(blocks[i].0, "id"@) == Some("bg"@) {
        match crate::template::first_inner(blocks[i].1, "filepath"@) {
            Some(v) => unescape(trim(v)),
            None => seq![],
        }
    } else {
        background_path(blocks, i + 1)
    }
}

/// The file name of a path: its last component, when that is neither empty nor
/// `..`.
pub open spec fn file_name(p: Seq<char>, style: PathStyle) -> Seq<char> {
    let n = last_component(strip_tail(p, style), style);
    if n == ".."@ {
        seq![]
    } else {
        n
    }
}

/// The places where a custom template's fixed material may be, in the order
/// they are tried (the first that is a file is the material): the file the
/// editor chose in the assets directory, `tmptop.mov` there, and the template's
/// background track when its file is `top.mov` or `tmptop.mov` (in any ASCII
/// case), each as the XML records paths.
pub open spec fn fixed_material_candidates(
    template_dir: Seq<char>,
    assets_dir: Seq<char>,
    xml: Seq<char>,
    fixed_material_file: Seq<char>,
    style: PathStyle,
) -> Seq<Seq<char>> {
    let chosen = if trim(fixed_material_file).len() > 0 {
        seq![xml_filepath(push_seg(assets_dir, fixed_material_file, style), style)]
    } else {
        seq![]
    };
    let tmp = seq![xml_filepath(push_seg(assets_dir, "tmptop.mov"@, style), style)];
    let bg = background_path(crate::scan::element_blocks(xml, "track"@), 0);
    let name = file_name(bg, style);
    let background = if crate::props::ascii_lower_eq(name, "top.mov"@) || crate::props::ascii_lower_eq(
        name,
        "tmptop.mov"@,
    ) {
        seq![xml_filepath(resolved_resource(template_dir, assets_dir, bg, style), style)]
    } else {
        seq![]
    };
    chosen + tmp + background
}

fn background_path_chars(blocks: &Vec<(Vec<char>, Vec<char>)>) -> (r: Vec<char>)
    ensures
        r@ == background_path(crate::scan::char_pair_views(blocks@), 0),
{
    let ghost bs = crate::scan::char_pair_views(blocks@);
    let idn = chars_of("id");
    let bgv = chars_of("bg");
    proof {
        reveal_strlit("id");
    }
    let mut i: usize = 0;
    while i < blocks.len()
        invariant
            i <= blocks@.len(),
            bs == crate::scan::char_pair_views(blocks@),
            idn@ == "id"@,
            idn@.len() > 0,
            bgv@ == "bg"@,
            background_path(bs, 0) == background_path(bs, i as int),
        decreases blocks@.len() - i,
    {
        assert(bs[i as int] == (blocks@[i as int].0@, blocks@[i as int].1@));
        if crate::area::attr_is(&blocks[i].0, &idn, &bgv) {
            let inner = crate::scan::element_blocks_chars(&blocks[i].1, &chars_of("filepath"));
            if inner.len() > 0 {
                assert(crate::scan::char_pair_views(inner@)[0] == (inner@[0].0@, inner@[0].1@));
                let v = &inner[0].1;
                let (a, b) = trim_range(v, 0, v.len());
                assert(v@.subrange(0, v@.len() as int) =~= v@);
                return unescape_range(v, a, b);
            }
            return Vec::new();
        }
        i += 1;
    }
    Vec::new()
}

pub(crate) fn file_name_chars(p: &[char], style: PathStyle) -> (r: Vec<char>)
    ensures
        r@ == file_name(p@, style),
{
    let (_t, name) = tail_and_name(p, style);
    let dotdot = vec!['.', '.'];
    assert(dotdot@ =~= ".."@) by {
        reveal_strlit("..");
    }
    if crate::edit::chars_eq(&name, &dotdot) {
        Vec::new()
    } else {
        name
    }
}

/// The places where a custom template's fixed material may be (see
/// `fixed_material_candidates`); the caller takes the first that is a file, or
/// none.
pub fn custom_template_fixed_material_path(
    template_dir: &str,
    assets_dir: &str,
    xml_content: &str,
    fixed_material_file: &str,
    style: PathStyle,
) -> (r: Vec<String>)
    ensures
        r@.map_values(|x: String| x@) == fixed_material_candidates(
            template_dir@,
            assets_dir@,
            xml_content@,
            fixed_material_file@,
            style,
        ),
{
    let mut r: Vec<String> = Vec::new();
    let f = chars_of(fixed_material_file);
    let (fa, fb) = trim_range(&f, 0, f.len());
    assert(f@.subrange(0, f@.len() as int) =~= f@);
    if fb > fa {
        let mut p = chars_of(assets_dir);
        push_seg_exec(&mut p, &f, style);
        let ps = string_from_chars(p);
        r.push(path_to_xml_filepath(ps.as_str(), style));
    }
    let mut p = chars_of(assets_dir);
    push_seg_exec(&mut p, &chars_of("tmptop.mov"), style);
    let ps = string_from_chars(p);
    r.push(path_to_xml_filepath(ps.as_str(), style));
    let ghost first_two = r@.map_values(|x: String| x@);
    let s = chars_of(xml_content);
    let blocks = crate::scan::element_blocks_chars(&s, &chars_of("track"));
    let bg = background_path_chars(&blocks);
    let name = file_name_chars(&bg, style);
    if crate::props::ascii_lower_eq_exec(&name, &chars_of("top.mov"))
        || crate::props::ascii_lower_eq_exec(&name, &chars_of("tmptop.mov")) {
        let bs_str = string_from_chars(bg);
        let resolved = resolve_template_resource_filepath(template_dir, assets_dir, bs_str.as_str(), style);
        r.push(path_to_xml_filepath(resolved.as_str(), style));
    }
    assert(r@.map_values(|x: String| x@) =~= fixed_material_candidates(
        template_dir@,
        assets_dir@,
        xml_content@,
        fixed_material_file@,
        style,
    ));
    r
}

} // verus!
