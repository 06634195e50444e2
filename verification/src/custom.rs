//! Custom templates made in the template factory: their status, their details,
//! and the template file that is uploaded.

use vstd::prelude::*;
use crate::text::{
    chars_of, copy_range, find_char_from, find_from, first_match, lemma_first_match, parse_u64,
    parse_u64_spec, push_all, push_range, push_str, string_from_chars, trim, trim_range,
};
use crate::xml::{
    close_pat, lemma_tag_candidate, open_pat, tag_candidate, unescape, unescape_range,
    find_tag_candidate,
};
use crate::attr::{attr_value, attr_value_chars};
use crate::scan::{char_pair_views, element_blocks, element_blocks_chars, is_self_closing, self_closing};
use crate::edit::{indent_only, line_start};
use crate::area::{remove_children, remove_children_chars};
use crate::props::ascii_lower_eq;
use crate::template::{first_inner, template_tag};

verus! {

broadcast use vstd::string::group_string_axioms;

// ---------------------------------------------------------------------------
// Status
// ---------------------------------------------------------------------------

/// The status shown for a custom template: the one saved by the editor when it
/// is 0, 1 or 2; else 1 when its upload was finalized, 2 when not.
pub open spec fn template_status(editor_status: Option<u8>, upload_finalized: bool) -> u8 {
    match editor_status {
        Some(s) if s <= 2 => s,
        _ => if upload_finalized {
            1
        } else {
            2
        },
    }
}

/// The status shown for a custom template (see `template_status`).
pub fn custom_template_status(editor_status: Option<u8>, upload_finalized: bool) -> (r: u8)
    ensures
        r == template_status(editor_status, upload_finalized),
{
    match editor_status {
        Some(s) if s <= 2 => s,
        _ => if upload_finalized {
            1
        } else {
            2
        },
    }
}

/// Whether a custom template may be submitted: as the editor saved it, else when
/// its upload was not finalized.
pub fn custom_template_submission_ready(editor_ready: Option<bool>, upload_finalized: bool) -> (r:
    bool)
    ensures
        r == match editor_ready {
            Some(b) => b,
            None => !upload_finalized,
        },
{
    match editor_ready {
        Some(b) => b,
        None => !upload_finalized,
    }
}

// ---------------------------------------------------------------------------
// Details
// ---------------------------------------------------------------------------

/// The decoded, trimmed text of the first element `<name>` of `s`, or empty.
pub open spec fn element_text(s: Seq<char>, name: Seq<char>) -> Seq<char> {
    match first_inner(s, name) {
        Some(i) => unescape(trim(i)),
        None => seq![],
    }
}

/// The inner text of the template's first `<video>` element, or empty.
pub open spec fn video_inner(s: Seq<char>) -> Seq<char> {
    match first_inner(s, "video"@) {
        Some(i) => i,
        None => seq![],
    }
}

fn element_text_chars(s: &[char], name: &str) -> (r: Vec<char>)
    ensures
        r@ == element_text(s@, name@),
{
    let blocks = element_blocks_chars(s, &chars_of(name));
    if blocks.len() == 0 {
        return Vec::new();
    }
    assert(char_pair_views(blocks@)[0] == (blocks@[0].0@, blocks@[0].1@));
    let inner = &blocks[0].1;
    let (a, b) = trim_range(inner, 0, inner.len());
    assert(inner@.subrange(0, inner@.len() as int) =~= inner@);
    unescape_range(inner, a, b)
}

/// The template's video details from its first `<video>` element: the duration
/// (0 when it is not a whole number), the resolution and the demo path.
pub fn custom_template_video_details(xml_content: &str) -> (r: (u64, String, String))
    ensures
        r.0 == match parse_u64_spec(element_text(video_inner(xml_content@), "duration"@)) {
            Some(n) => n,
            None => 0,
        },
        r.1@ == element_text(video_inner(xml_content@), "resolution"@),
        r.2@ == element_text(video_inner(xml_content@), "demo-path"@),
{
    let s = chars_of(xml_content);
    let blocks = element_blocks_chars(&s, &chars_of("video"));
    let inner = if blocks.len() > 0 {
        assert(char_pair_views(blocks@)[0] == (blocks@[0].0@, blocks@[0].1@));
        copy_range(&blocks[0].1, 0, blocks[0].1.len())
    } else {
        Vec::new()
    };
    proof {
        if blocks@.len() > 0 {
            assert(blocks@[0].1@.subrange(0, blocks@[0].1@.len() as int) =~= blocks@[0].1@);
        }
    }
    let duration = element_text_chars(&inner, "duration");
    let d = match parse_u64(&duration, 0, duration.len()) {
        Some(n) => n,
        None => 0,
    };
    assert(duration@.subrange(0, duration@.len() as int) =~= duration@);
    let resolution = element_text_chars(&inner, "resolution");
    let demo = element_text_chars(&inner, "demo-path");
    (d, string_from_chars(resolution), string_from_chars(demo))
}

/// The name of a template: the non-blank `name` of its first `<template>`, else
/// the fallback.
pub open spec fn template_name(s: Seq<char>, fallback: Seq<char>) -> Seq<char> {
    match template_tag(s) {
        Some(tag) => match attr_value(tag, "name"@) {
            Some(n) => if trim(n).len() > 0 {
                n
            } else {
                fallback
            },
            None => fallback,
        },
        None => fallback,
    }
}

/// The name of the template `xml_content`, or `fallback` when it has none.
pub fn custom_template_name(xml_content: &str, fallback: &str) -> (r: String)
    ensures
        r@ == template_name(xml_content@, fallback@),
{
    let s = chars_of(xml_content);
    let blocks = element_blocks_chars(&s, &chars_of("template"));
    if blocks.len() > 0 {
        assert(char_pair_views(blocks@)[0] == (blocks@[0].0@, blocks@[0].1@));
        let name = chars_of("name");
        proof {
            reveal_strlit("name");
        }
        match attr_value_chars(&blocks[0].0, &name) {
            Some(n) => {
                let (a, b) = trim_range(&n, 0, n.len());
                assert(n@.subrange(0, n@.len() as int) =~= n@);
                if b > a {
                    return string_from_chars(n);
                }
            },
            None => {},
        }
    }
    fallback.to_string()
}

// ---------------------------------------------------------------------------
// The uploaded template file
// ---------------------------------------------------------------------------

/// The clip start tag is marked `material-type="fixed"` (in any ASCII case).
pub open spec fn fixed_clip(tag: Seq<char>) -> bool {
    match attr_value(tag, "material-type"@) {
        Some(v) => ascii_lower_eq(v, "fixed"@),
        None => false,
    }
}

/// Past the spaces, tabs and carriage returns from `i` on, then one line break if
/// present.
pub open spec fn skip_line_end(s: Seq<char>, i: int) -> int
    decreases s.len() - i,
{
    if 0 <= i < s.len() && (s[i] == ' ' || s[i] == '\t' || s[i] == '\r') {
        skip_line_end(s, i + 1)
    } else if 0 <= i < s.len() && s[i] == '\n' {
        i + 1
    } else {
        i
    }
}

/// The uploaded template from `cursor` on, scanning for clips from `search` on:
/// fixed clips are removed with their line, the other clips lose their
/// `<top-video>` elements.  An error message when a clip start tag has no `>` or
/// a clip no end tag.
pub open spec fn upload_from(s: Seq<char>, cursor: int, search: int) -> Result<Seq<char>, Seq<char>>
    decreases s.len() - search,
{
    if search < 0 || cursor < 0 {
        Ok(seq![])
    } else {
        match tag_candidate(s, open_pat("clip"@), search) {
            None => Ok(s.skip(cursor)),
            Some(t) => match first_match(s, seq!['>'], t) {
                None => Err("模板 XML 中的 clip 起始标签不完整"@),
                Some(g) => {
                    proof {
                        lemma_tag_candidate(s, open_pat("clip"@), search);
                        lemma_first_match(s, seq!['>'], t);
                        lemma_first_match(s, close_pat("clip"@), g + 1);
                    }
                    let e = g + 1;
                    let tag = s.subrange(t, e);
                    let sc = self_closing(tag);
                    let ce = if sc {
                        Some(e)
                    } else {
                        match first_match(s, close_pat("clip"@), e) {
                            None => None,
                            Some(c) => Some(c + close_pat("clip"@).len()),
                        }
                    };
                    match ce {
                        None => Err("模板 XML 中的 clip 结束标签不完整"@),
                        Some(ce) => if fixed_clip(tag) {
                            let ls = line_start(s, t);
                            let rs = if ls >= cursor && indent_only(s.subrange(ls, t)) {
                                ls
                            } else {
                                t
                            };
                            match upload_from(s, skip_line_end(s, ce), ce) {
                                Ok(rest) => Ok(s.subrange(cursor, rs) + rest),
                                Err(m) => Err(m),
                            }
                        } else {
                            let kept = if sc {
                                s.subrange(cursor, e)
                            } else {
                                s.subrange(cursor, e) + remove_children(
                                    s.subrange(e, ce - close_pat("clip"@).len()),
                                    "top-video"@,
                                ) + close_pat("clip"@)
                            };
                            match upload_from(s, ce, ce) {
                                Ok(rest) => Ok(kept + rest),
                                Err(m) => Err(m),
                            }
                        },
                    }
                },
            },
        }
    }
}


/// A space, tab, carriage return or line break.
pub open spec fn blankish(c: char) -> bool {
    c == ' ' || c == '\t' || c == '\r' || c == '\n'
}

proof fn lemma_skip_line_end(s: Seq<char>, i: int)
    requires
        0 <= i <= s.len(),
    ensures
        i <= skip_line_end(s, i) <= s.len(),
        forall|k: int| i <= k < skip_line_end(s, i) ==> blankish(#[trigger] s[k]),
    decreases s.len() - i,
{
    if i < s.len() && (s[i] == ' ' || s[i] == '\t' || s[i] == '\r') {
        lemma_skip_line_end(s, i + 1);
    }
}

/// Prepends text to an upload result.
pub open spec fn upload_prefixed(prefix: Seq<char>, r: Result<Seq<char>, Seq<char>>) -> Result<
    Seq<char>,
    Seq<char>,
> {
    match r {
        Ok(rest) => Ok(prefix + rest),
        Err(m) => Err(m),
    }
}

proof fn lemma_upload_prefixed(a: Seq<char>, b: Seq<char>, r: Result<Seq<char>, Seq<char>>)
    ensures
        upload_prefixed(a, upload_prefixed(b, r)) == upload_prefixed(a + b, r),
{
    if let Ok(rest) = r {
        assert(a + (b + rest) =~= (a + b) + rest);
    }
}

fn upload_chars(s: &[char]) -> (r: Result<Vec<char>, Vec<char>>)
    ensures
        match r {
            Ok(x) => upload_from(s@, 0, 0) == Ok::<Seq<char>, Seq<char>>(x@),
            Err(m) => upload_from(s@, 0, 0) == Err::<Seq<char>, Seq<char>>(m@),
        },
{
    let clip = chars_of("clip");
    let open = crate::xml::open_pattern(&clip);
    let close = crate::xml::close_pattern(&clip);
    let mt = chars_of("material-type");
    let fixed = chars_of("fixed");
    let top = chars_of("top-video");
    proof {
        reveal_strlit("material-type");
    }
    let slen = s.len();
    let mut out: Vec<char> = Vec::new();
    let mut cursor: usize = 0;
    let mut search: usize = 0;
    loop
        invariant
            slen == s@.len(),
            search <= cursor <= s@.len(),
            forall|k: int| search <= k < cursor ==> blankish(#[trigger] s@[k]),
            open@ == open_pat("clip"@),
            close@ == close_pat("clip"@),
            mt@ == "material-type"@,
            mt@.len() > 0,
            fixed@ == "fixed"@,
            top@ == "top-video"@,
            upload_from(s@, 0, 0) == upload_prefixed(out@, upload_from(s@, cursor as int, search as int)),
        decreases s@.len() - search,
    {
        let ghost before = out@;
        match find_tag_candidate(s, &open, search) {
            None => {
                push_range(&mut out, s, cursor, s.len());
                assert(out@ =~= before + s@.skip(cursor as int));
                return Ok(out);
            },
            Some(t) => {
                proof {
                    lemma_tag_candidate(s@, open@, search as int);
                    assert(s@.subrange(t as int, t + open@.len())[0] == s@[t as int]);
                    assert(s@[t as int] == '<');
                }
                match find_char_from(s, '>', t) {
                    None => {
                        let mut m: Vec<char> = Vec::new();
                        push_str(&mut m, "模板 XML 中的 clip 起始标签不完整");
                        assert(m@ =~= "模板 XML 中的 clip 起始标签不完整"@);
                        return Err(m);
                    },
                    Some(g) => {
                        proof {
                            lemma_first_match(s@, seq!['>'], t as int);
                            lemma_first_match(s@, close@, g + 1);
                        }
                        let e = g + 1;
                        let sc = is_self_closing(s, t, e);
                        let ce = if sc {
                            e
                        } else {
                            match find_from(s, &close, e) {
                                None => {
                                    let mut m: Vec<char> = Vec::new();
                                    push_str(&mut m, "模板 XML 中的 clip 结束标签不完整");
                                    assert(m@ =~= "模板 XML 中的 clip 结束标签不完整"@);
                                    return Err(m);
                                },
                                Some(c) => c + close.len(),
                            }
                        };
                        let tag = copy_range(s, t, e);
                        let is_fixed = match attr_value_chars(&tag, &mt) {
                            Some(v) => crate::props::ascii_lower_eq_exec(&v, &fixed),
                            None => false,
                        };
                        if is_fixed {
                            let (ls, _) = crate::edit::removal_span(s, t, e);
                            let nl = vec!['\n'];
                            assert(nl@ =~= seq!['\n']);
                            proof {
                                crate::attr::lemma_last_match_bound(s@, seq!['\n'], t as int);
                            }
                            let line = match crate::text::rfind_before(s, &nl, t) {
                                Some(i) => i + 1,
                                None => 0,
                            };
                            let mut indented = true;
                            let mut k = line;
                            while k < t
                                invariant
                                    line <= k <= t <= s@.len(),
                                    indented == indent_only(s@.subrange(line as int, k as int)),
                                decreases t - k,
                            {
                                let c = s[k];
                                let ok = c == ' ' || c == '\t' || c == '\r';
                                assert(indent_only(s@.subrange(line as int, k + 1)) == (indent_only(
                                    s@.subrange(line as int, k as int),
                                ) && ok)) by {
                                    let a = s@.subrange(line as int, k + 1);
                                    let b = s@.subrange(line as int, k as int);
                                    assert(a[k - line] == c);
                                    assert forall|j: int| 0 <= j < b.len() implies b[j] == a[j] by {}
                                }
                                indented = indented && ok;
                                k += 1;
                            }
                            let rs = if line >= cursor && indented {
                                line
                            } else {
                                t
                            };
                            push_range(&mut out, s, cursor, rs);
                            let mut nc = ce;
                            proof {
                                lemma_skip_line_end(s@, ce as int);
                            }
                            while nc < s.len() && (s[nc] == ' ' || s[nc] == '\t' || s[nc] == '\r')
                                invariant
                                    ce <= nc <= s@.len(),
                                    skip_line_end(s@, ce as int) == skip_line_end(s@, nc as int),
                                decreases s@.len() - nc,
                            {
                                nc += 1;
                            }
                            if nc < s.len() && s[nc] == '\n' {
                                nc += 1;
                            }
                            assert(line == line_start(s@, t as int));
                            assert(is_fixed == fixed_clip(s@.subrange(t as int, e as int)));
                            assert(nc == skip_line_end(s@, ce as int));
                            assert(upload_from(s@, cursor as int, search as int) == upload_prefixed(s@.subrange(cursor as int, rs as int), upload_from(s@, nc as int, ce as int)));
                            proof {
                                lemma_upload_prefixed(before, s@.subrange(cursor as int, rs as int), upload_from(s@, nc as int, ce as int));
                            }
                            cursor = nc;
                            search = ce;
                        } else {
                            push_range(&mut out, s, cursor, e);
                            let ghost mut kept = s@.subrange(cursor as int, e as int);
                            if !sc {
                                let inner = copy_range(s, e, ce - close.len());
                                let cleaned = remove_children_chars(&inner, &top);
                                push_all(&mut out, &cleaned);
                                push_all(&mut out, &close);
                                proof {
                                    kept = kept + cleaned@ + close@;
                                }
                            }
                            assert(out@ =~= before + kept);
                            assert(is_fixed == fixed_clip(s@.subrange(t as int, e as int)));
                            assert(upload_from(s@, cursor as int, search as int) == upload_prefixed(kept, upload_from(s@, ce as int, ce as int)));
                            proof {
                                lemma_upload_prefixed(before, kept, upload_from(s@, ce as int, ce as int));
                            }
                            cursor = ce;
                            search = ce;
                        }
                    },
                }
            },
        }
    }
}

/// The template file that is uploaded: `template_xml` without its fixed clips
/// (each with its line when it stands alone there) and without the `<top-video>`
/// elements of the other clips.  An error when the template has no `<clips>`, a
/// clip start tag has no `>`, or a clip has no end tag.
pub fn build_custom_template_upload_xml(template_xml: &str) -> (r: Result<String, String>)
    ensures
        element_blocks(template_xml@, "clips"@).len() == 0 ==> (r matches Err(m) && m@
            == "模板 XML 中缺少 clips，无法准备上传文件"@),
        element_blocks(template_xml@, "clips"@).len() > 0 ==> match upload_from(template_xml@, 0, 0) {
            Ok(x) => r matches Ok(y) && y@ == x,
            Err(e) => r matches Err(m) && m@ == e,
        },
{
    let s = chars_of(template_xml);
    let blocks = element_blocks_chars(&s, &chars_of("clips"));
    if blocks.len() == 0 {
        return Err("模板 XML 中缺少 clips，无法准备上传文件".to_string());
    }
    match upload_chars(&s) {
        Ok(x) => Ok(string_from_chars(x)),
        Err(m) => Err(string_from_chars(m)),
    }
}

} // verus!
