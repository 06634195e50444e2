//! Subtitles: reading a template's first subtitle and writing a subtitle text
//! into a project file or a template.

use vstd::prelude::*;
use crate::text::{
    chars_of, copy_range, find_from, first_match, lemma_first_match, push_all, push_range, push_str,
    string_from_chars,
};
use crate::xml::{
    close_pat, close_pattern, escape_attr, escape_text, find_next_tag, lemma_next_tag, next_tag,
    open_pat, open_pattern, push_escaped_attr, push_escaped_text,
};
use crate::attr::{attr_value, attr_value_chars, replace_or_insert_attr, replace_or_insert_attr_chars};
use crate::scan::{
    char_pair_views, element_blocks, element_blocks_chars, is_self_closing, self_closing,
    start_tags, start_tags_chars, char_views,
};
use crate::edit::{chars_eq, id_name};
use crate::template::opt_view;

verus! {

broadcast use vstd::string::group_string_axioms;

/// A subtitle of a template: the clip that holds it, its id, and its timing
/// attributes when present.
pub struct TemplateSubtitle {
    pub clip_id: String,
    pub id: String,
    pub absolute_start_time: Option<String>,
    pub duration: Option<String>,
}

pub type SubtitleV = (Seq<char>, Seq<char>, Option<Seq<char>>, Option<Seq<char>>);

impl View for TemplateSubtitle {
    type V = SubtitleV;

    open spec fn view(&self) -> SubtitleV {
        (self.clip_id@, self.id@, opt_view(self.absolute_start_time), opt_view(self.duration))
    }
}

// ---------------------------------------------------------------------------
// Removing subtitles
// ---------------------------------------------------------------------------

/// `s` from `from` on without its `<subtitle>` elements: a self-closing one, one
/// up to its end tag, or only the start tag when there is no end tag.
pub open spec fn strip_subtitles(s: Seq<char>, from: int) -> Seq<char>
    decreases s.len() - from,
{
    if from < 0 || from > s.len() {
        seq![]
    } else {
        match next_tag(s, open_pat("subtitle"@), from) {
            None => s.skip(from),
            Some((t, e)) => {
                proof {
                    lemma_next_tag(s, open_pat("subtitle"@), from);
                    lemma_first_match(s, close_pat("subtitle"@), e);
                }
                s.subrange(from, t) + if self_closing(s.subrange(t, e)) {
                    strip_subtitles(s, e)
                } else {
                    match first_match(s, close_pat("subtitle"@), e) {
                        Some(c) => strip_subtitles(s, c + close_pat("subtitle"@).len()),
                        None => strip_subtitles(s, e),
                    }
                }
            },
        }
    }
}

fn strip_subtitles_chars(s: &[char]) -> (r: Vec<char>)
    ensures
        r@ == strip_subtitles(s@, 0),
{
    let name = chars_of("subtitle");
    let open = open_pattern(&name);
    let close = close_pattern(&name);
    let slen = s.len();
    let mut out: Vec<char> = Vec::new();
    let mut pos: usize = 0;
    loop
        invariant
            slen == s@.len(),
            pos <= s@.len(),
            open@ == open_pat("subtitle"@),
            close@ == close_pat("subtitle"@),
            out@ + strip_subtitles(s@, pos as int) == strip_subtitles(s@, 0),
        decreases s@.len() - pos,
    {
        match find_next_tag(s, &open, pos) {
            None => {
                let ghost before = out@;
                push_range(&mut out, s, pos, s.len());
                assert(out@ =~= before + s@.skip(pos as int));
                return out;
            },
            Some((t, e)) => {
                proof {
                    lemma_next_tag(s@, open@, pos as int);
                    lemma_first_match(s@, close@, e as int);
                }
                let ghost before = out@;
                push_range(&mut out, s, pos, t);
                let next = if is_self_closing(s, t, e) {
                    e
                } else {
                    match find_from(s, &close, e) {
                        Some(c) => c + close.len(),
                        None => e,
                    }
                };
                assert(out@ + strip_subtitles(s@, next as int) =~= before + strip_subtitles(
                    s@,
                    pos as int,
                ));
                pos = next;
            },
        }
    }
}

/// `xml_content` without its `<subtitle>` elements.
pub fn remove_subtitle_tags(xml_content: &str) -> (r: String)
    ensures
        r@ == strip_subtitles(xml_content@, 0),
{
    let s = chars_of(xml_content);
    string_from_chars(strip_subtitles_chars(&s))
}

// ---------------------------------------------------------------------------
// The first subtitle of a template
// ---------------------------------------------------------------------------

/// The subtitle of a clip block: the clip's id and the first `<subtitle>` start
/// tag's id and timing attributes; `None` when one of the ids or the tag is
/// missing.
pub open spec fn clip_subtitle(tag: Seq<char>, inner: Seq<char>) -> Option<SubtitleV> {
    match attr_value(tag, id_name()) {
        None => None,
        Some(clip_id) => {
            let subs = start_tags(inner, "subtitle"@);
            if subs.len() == 0 {
                None
            } else {
                match attr_value(subs[0], id_name()) {
                    None => None,
                    Some(id) => Some(
                        (
                            clip_id,
                            id,
                            attr_value(subs[0], "absoluteStartTime"@),
                            attr_value(subs[0], "duration"@),
                        ),
                    ),
                }
            }
        },
    }
}

/// The first subtitle among the clip blocks from `i` on.
pub open spec fn first_clip_subtitle(blocks: Seq<(Seq<char>, Seq<char>)>, i: int) -> Option<
    SubtitleV,
>
    decreases blocks.len() - i,
{
    if i < 0 || i >= blocks.len() {
        None
    } else {
        match clip_subtitle(blocks[i].0, blocks[i].1) {
            Some(x) => Some(x),
            None => first_clip_subtitle(blocks, i + 1),
        }
    }
}

/// The first subtitle among the clips groups from `i` on.
pub open spec fn first_group_subtitle(groups: Seq<(Seq<char>, Seq<char>)>, i: int) -> Option<
    SubtitleV,
>
    decreases groups.len() - i,
{
    if i < 0 || i >= groups.len() {
        None
    } else {
        match first_clip_subtitle(element_blocks(groups[i].1, "clip"@), 0) {
            Some(x) => Some(x),
            None => first_group_subtitle(groups, i + 1),
        }
    }
}

/// The first subtitle of a template.
pub open spec fn first_subtitle(s: Seq<char>) -> Option<SubtitleV> {
    first_group_subtitle(element_blocks(s, "clips"@), 0)
}

pub open spec fn sub_opt_view(o: Option<TemplateSubtitle>) -> Option<SubtitleV> {
    match o {
        Some(x) => Some(x@),
        None => None,
    }
}

fn opt_string(o: Option<Vec<char>>) -> (r: Option<String>)
    ensures
        opt_view(r) == match o {
            Some(v) => Some(v@),
            None => None::<Seq<char>>,
        },
{
    match o {
        Some(v) => Some(string_from_chars(v)),
        None => None,
    }
}

fn clip_subtitle_exec(tag: &[char], inner: &[char]) -> (r: Option<TemplateSubtitle>)
    ensures
        sub_opt_view(r) == clip_subtitle(tag@, inner@),
{
    let idn = chars_of("id");
    let ast = chars_of("absoluteStartTime");
    let dur = chars_of("duration");
    proof {
        reveal_strlit("id");
        reveal_strlit("absoluteStartTime");
        reveal_strlit("duration");
        assert(idn@ =~= id_name());
    }
    match attr_value_chars(tag, &idn) {
        None => None,
        Some(clip_id) => {
            let subs = start_tags_chars(inner, &chars_of("subtitle"));
            if subs.len() == 0 {
                return None;
            }
            assert(char_views(subs@)[0] == subs@[0]@);
            match attr_value_chars(&subs[0], &idn) {
                None => None,
                Some(id) => Some(
                    TemplateSubtitle {
                        clip_id: string_from_chars(clip_id),
                        id: string_from_chars(id),
                        absolute_start_time: opt_string(attr_value_chars(&subs[0], &ast)),
                        duration: opt_string(attr_value_chars(&subs[0], &dur)),
                    },
                ),
            }
        },
    }
}

fn first_clip_subtitle_exec(blocks: &Vec<(Vec<char>, Vec<char>)>) -> (r: Option<TemplateSubtitle>)
    ensures
        sub_opt_view(r) == first_clip_subtitle(char_pair_views(blocks@), 0),
{
    let ghost bs = char_pair_views(blocks@);
    let mut i: usize = 0;
    while i < blocks.len()
        invariant
            i <= blocks@.len(),
            bs == char_pair_views(blocks@),
            first_clip_subtitle(bs, 0) == first_clip_subtitle(bs, i as int),
        decreases blocks@.len() - i,
    {
        assert(bs[i as int] == (blocks@[i as int].0@, blocks@[i as int].1@));
        let r = clip_subtitle_exec(&blocks[i].0, &blocks[i].1);
        if r.is_some() {
            return r;
        }
        i += 1;
    }
    None
}

/// The first subtitle of the template `xml_content`: in the first clip, among its
/// `<clips>` groups in order, that has an id and whose first `<subtitle>` start
/// tag has an id.
pub fn find_first_template_subtitle(xml_content: &str) -> (r: Option<TemplateSubtitle>)
    ensures
        sub_opt_view(r) == first_subtitle(xml_content@),
{
    let s = chars_of(xml_content);
    let groups = element_blocks_chars(&s, &chars_of("clips"));
    let clip = chars_of("clip");
    let ghost gs = char_pair_views(groups@);
    let mut i: usize = 0;
    while i < groups.len()
        invariant
            i <= groups@.len(),
            gs == char_pair_views(groups@),
            gs == element_blocks(xml_content@, "clips"@),
            clip@ == "clip"@,
            first_group_subtitle(gs, 0) == first_group_subtitle(gs, i as int),
        decreases groups@.len() - i,
    {
        assert(gs[i as int] == (groups@[i as int].0@, groups@[i as int].1@));
        let blocks = element_blocks_chars(&groups[i].1, &clip);
        let r = first_clip_subtitle_exec(&blocks);
        if r.is_some() {
            return r;
        }
        i += 1;
    }
    None
}


// ---------------------------------------------------------------------------
// Writing a subtitle into a project file
// ---------------------------------------------------------------------------

/// ` name="escaped value"` for a present value, else nothing.
pub open spec fn opt_attr_text(name: Seq<char>, v: Option<Seq<char>>) -> Seq<char> {
    match v {
        Some(x) => " "@ + name + "=\""@ + escape_attr(x) + "\""@,
        None => seq![],
    }
}

/// The line of the subtitle `sub` with the text `text`.
pub open spec fn subtitle_line(sub: SubtitleV, text: Seq<char>) -> Seq<char> {
    "                <subtitle id=\""@ + escape_attr(sub.1) + "\" text=\""@ + escape_attr(text)
        + "\""@ + opt_attr_text("absoluteStartTime"@, sub.2) + opt_attr_text("duration"@, sub.3)
        + " />\n"@
}

/// `s` from `from` on with every `<clip>` element cleared of its subtitles and
/// the clip `sub.0` given the subtitle line; with whether that clip was found.
/// The scan stops at a clip without end tag, keeping the rest.
pub open spec fn with_subtitle_from(s: Seq<char>, sub: SubtitleV, text: Seq<char>, from: int) -> (
    Seq<char>,
    bool,
)
    decreases s.len() - from,
{
    if from < 0 || from > s.len() {
        (seq![], false)
    } else {
        match next_tag(s, open_pat("clip"@), from) {
            None => (s.skip(from), false),
            Some((t, e)) => {
                proof {
                    lemma_next_tag(s, open_pat("clip"@), from);
                    lemma_first_match(s, close_pat("clip"@), e);
                }
                let tag = s.subrange(t, e);
                if self_closing(tag) {
                    let r = with_subtitle_from(s, sub, text, e);
                    (s.subrange(from, e) + r.0, r.1)
                } else {
                    match first_match(s, close_pat("clip"@), e) {
                        None => (s.skip(from), false),
                        Some(c) => {
                            let hit = attr_value(tag, id_name()) == Some(sub.0);
                            let r = with_subtitle_from(s, sub, text, c + close_pat("clip"@).len());
                            (
                                s.subrange(from, e) + strip_subtitles(s.subrange(e, c), 0) + (if hit {
                                    subtitle_line(sub, text)
                                } else {
                                    seq![]
                                }) + close_pat("clip"@) + r.0,
                                hit || r.1,
                            )
                        },
                    }
                }
            },
        }
    }
}

fn push_opt_attr(out: &mut Vec<char>, name: &str, v: &Option<String>)
    ensures
        final(out)@ == old(out)@ + opt_attr_text(name@, opt_view(*v)),
{
    match v {
        Some(x) => {
            push_str(out, " ");
            push_str(out, name);
            push_str(out, "=\"");
            push_escaped_attr(out, &chars_of(x.as_str()));
            push_str(out, "\"");
        },
        None => {},
    }
}

fn push_subtitle_line(out: &mut Vec<char>, sub: &TemplateSubtitle, text: &[char])
    ensures
        final(out)@ == old(out)@ + subtitle_line(sub@, text@),
{
    push_str(out, "                <subtitle id=\"");
    push_escaped_attr(out, &chars_of(sub.id.as_str()));
    push_str(out, "\" text=\"");
    push_escaped_attr(out, text);
    push_str(out, "\"");
    push_opt_attr(out, "absoluteStartTime", &sub.absolute_start_time);
    push_opt_attr(out, "duration", &sub.duration);
    push_str(out, " />\n");
}

fn with_subtitle_chars(s: &[char], sub: &TemplateSubtitle, text: &[char]) -> (r: (Vec<char>, bool))
    ensures
        (r.0@, r.1) == with_subtitle_from(s@, sub@, text@, 0),
{
    let name = chars_of("clip");
    let open = open_pattern(&name);
    let close = close_pattern(&name);
    let idn = chars_of("id");
    proof {
        reveal_strlit("id");
        assert(idn@ =~= id_name());
    }
    let clip_id = chars_of(sub.clip_id.as_str());
    let slen = s.len();
    let mut out: Vec<char> = Vec::new();
    let mut hit = false;
    let mut pos: usize = 0;
    loop
        invariant
            slen == s@.len(),
            pos <= s@.len(),
            open@ == open_pat("clip"@),
            close@ == close_pat("clip"@),
            idn@ == id_name(),
            clip_id@ == sub@.0,
            ({
                let r = with_subtitle_from(s@, sub@, text@, pos as int);
                with_subtitle_from(s@, sub@, text@, 0) == (out@ + r.0, hit || r.1)
            }),
        decreases s@.len() - pos,
    {
        let ghost before = out@;
        match find_next_tag(s, &open, pos) {
            None => {
                push_range(&mut out, s, pos, s.len());
                assert(out@ =~= before + s@.skip(pos as int));
                return (out, hit);
            },
            Some((t, e)) => {
                proof {
                    lemma_next_tag(s@, open@, pos as int);
                    lemma_first_match(s@, close@, e as int);
                }
                if is_self_closing(s, t, e) {
                    push_range(&mut out, s, pos, e);
                    assert(out@ + with_subtitle_from(s@, sub@, text@, e as int).0 =~= before
                        + with_subtitle_from(s@, sub@, text@, pos as int).0);
                    pos = e;
                } else {
                    match find_from(s, &close, e) {
                        None => {
                            push_range(&mut out, s, pos, s.len());
                            assert(out@ =~= before + s@.skip(pos as int));
                            return (out, hit);
                        },
                        Some(c) => {
                            let tag = copy_range(s, t, e);
                            let inner = copy_range(s, e, c);
                            let cleaned = strip_subtitles_chars(&inner);
                            let this_hit = match attr_value_chars(&tag, &idn) {
                                Some(v) => chars_eq(&v, &clip_id),
                                None => false,
                            };
                            push_range(&mut out, s, pos, e);
                            push_all(&mut out, &cleaned);
                            if this_hit {
                                push_subtitle_line(&mut out, sub, text);
                            }
                            push_all(&mut out, &close);
                            assert(out@ + with_subtitle_from(s@, sub@, text@, c + close@.len()).0
                                =~= before + with_subtitle_from(s@, sub@, text@, pos as int).0);
                            hit = hit || this_hit;
                            pos = c + close.len();
                        },
                    }
                }
            },
        }
    }
}

/// `project_file_xml` with every `<clip>` cleared of its subtitles and the clip
/// `subtitle.clip_id` given the subtitle with the text `text`; an error when that
/// clip is not found.
pub fn update_project_subtitle(project_file_xml: &str, subtitle: &TemplateSubtitle, text: &str) -> (r:
    Result<String, String>)
    ensures
        ({
            let (x, found) = with_subtitle_from(project_file_xml@, subtitle@, text@, 0);
            if found {
                r matches Ok(y) && y@ == x
            } else {
                r matches Err(m) && m@ == "projectFile.xml 中未找到对应的 clip"@
            }
        }),
{
    let s = chars_of(project_file_xml);
    let t = chars_of(text);
    let (x, found) = with_subtitle_chars(&s, subtitle, &t);
    if found {
        Ok(string_from_chars(x))
    } else {
        Err("projectFile.xml 中未找到对应的 clip".to_string())
    }
}

// ---------------------------------------------------------------------------
// Writing a subtitle's default text into a template
// ---------------------------------------------------------------------------

/// The inner text of a subtitle with its default text set to `text`: the content
/// of its first `<default>` replaced, or a `<default>` appended.
pub open spec fn with_default(inner: Seq<char>, text: Seq<char>) -> Seq<char> {
    match first_match(inner, "<default>"@, 0) {
        Some(d) => {
            let dcs = d + "<default>"@.len();
            match first_match(inner, "</default>"@, dcs) {
                Some(de) => inner.take(dcs) + escape_text(text) + inner.skip(de),
                None => inner + "<default>"@ + escape_text(text) + "</default>"@,
            }
        },
        None => inner + "<default>"@ + escape_text(text) + "</default>"@,
    }
}

/// `s` from `from` on with the default text of every `<subtitle>` whose id is
/// `id` set to `text`: the `text` attribute of a self-closing one, the `<default>`
/// of another; with whether one was found.  The scan stops at such a subtitle
/// without end tag, keeping the rest.
pub open spec fn with_subtitle_default_from(
    s: Seq<char>,
    id: Seq<char>,
    text: Seq<char>,
    from: int,
) -> (Seq<char>, bool)
    decreases s.len() - from,
{
    if from < 0 || from > s.len() {
        (seq![], false)
    } else {
        match next_tag(s, open_pat("subtitle"@), from) {
            None => (s.skip(from), false),
            Some((t, e)) => {
                proof {
                    lemma_next_tag(s, open_pat("subtitle"@), from);
                    lemma_first_match(s, close_pat("subtitle"@), e);
                }
                let tag = s.subrange(t, e);
                if attr_value(tag, id_name()) != Some(id) {
                    let r = with_subtitle_default_from(s, id, text, e);
                    (s.subrange(from, e) + r.0, r.1)
                } else if self_closing(tag) {
                    let r = with_subtitle_default_from(s, id, text, e);
                    (
                        s.subrange(from, t) + replace_or_insert_attr(tag, "text"@, text) + r.0,
                        true,
                    )
                } else {
                    match first_match(s, close_pat("subtitle"@), e) {
                        None => (s.skip(from), false),
                        Some(c) => {
                            let r = with_subtitle_default_from(
                                s,
                                id,
                                text,
                                c + close_pat("subtitle"@).len(),
                            );
                            (
                                s.subrange(from, e) + with_default(s.subrange(e, c), text)
                                    + close_pat("subtitle"@) + r.0,
                                true,
                            )
                        },
                    }
                }
            },
        }
    }
}

fn with_default_chars(inner: &[char], text: &[char]) -> (r: Vec<char>)
    ensures
        r@ == with_default(inner@, text@),
{
    let open = chars_of("<default>");
    let close = chars_of("</default>");
    let ilen = inner.len();
    let mut out: Vec<char> = Vec::new();
    match find_from(inner, &open, 0) {
        Some(d) => {
            proof {
                lemma_first_match(inner@, open@, 0);
            }
            let dcs = d + open.len();
            match find_from(inner, &close, dcs) {
                Some(de) => {
                    proof {
                        lemma_first_match(inner@, close@, dcs as int);
                    }
                    push_range(&mut out, inner, 0, dcs);
                    push_escaped_text(&mut out, text);
                    push_range(&mut out, inner, de, inner.len());
                    assert(out@ =~= with_default(inner@, text@));
                    return out;
                },
                None => {},
            }
        },
        None => {},
    }
    push_all(&mut out, inner);
    push_str(&mut out, "<default>");
    push_escaped_text(&mut out, text);
    push_str(&mut out, "</default>");
    out
}

fn with_subtitle_default_chars(s: &[char], id: &[char], text: &[char]) -> (r: (Vec<char>, bool))
    ensures
        (r.0@, r.1) == with_subtitle_default_from(s@, id@, text@, 0),
{
    let name = chars_of("subtitle");
    let open = open_pattern(&name);
    let close = close_pattern(&name);
    let idn = chars_of("id");
    let text_attr = chars_of("text");
    proof {
        reveal_strlit("id");
        reveal_strlit("text");
        assert(idn@ =~= id_name());
    }
    let slen = s.len();
    let mut out: Vec<char> = Vec::new();
    let mut hit = false;
    let mut pos: usize = 0;
    loop
        invariant
            slen == s@.len(),
            pos <= s@.len(),
            open@ == open_pat("subtitle"@),
            close@ == close_pat("subtitle"@),
            idn@ == id_name(),
            text_attr@ == "text"@,
            text_attr@.len() > 0,
            ({
                let r = with_subtitle_default_from(s@, id@, text@, pos as int);
                with_subtitle_default_from(s@, id@, text@, 0) == (out@ + r.0, hit || r.1)
            }),
        decreases s@.len() - pos,
    {
        let ghost before = out@;
        match find_next_tag(s, &open, pos) {
            None => {
                push_range(&mut out, s, pos, s.len());
                assert(out@ =~= before + s@.skip(pos as int));
                return (out, hit);
            },
            Some((t, e)) => {
                proof {
                    lemma_next_tag(s@, open@, pos as int);
                    lemma_first_match(s@, close@, e as int);
                }
                let tag = copy_range(s, t, e);
                let same = match attr_value_chars(&tag, &idn) {
                    Some(v) => chars_eq(&v, id),
                    None => false,
                };
                if !same {
                    push_range(&mut out, s, pos, e);
                    assert(out@ + with_subtitle_default_from(s@, id@, text@, e as int).0 =~= before
                        + with_subtitle_default_from(s@, id@, text@, pos as int).0);
                    pos = e;
                } else if is_self_closing(s, t, e) {
                    push_range(&mut out, s, pos, t);
                    let edited = replace_or_insert_attr_chars(&tag, &text_attr, text);
                    push_all(&mut out, &edited);
                    assert(out@ + with_subtitle_default_from(s@, id@, text@, e as int).0 =~= before
                        + with_subtitle_default_from(s@, id@, text@, pos as int).0);
                    hit = true;
                    pos = e;
                } else {
                    match find_from(s, &close, e) {
                        None => {
                            push_range(&mut out, s, pos, s.len());
                            assert(out@ =~= before + s@.skip(pos as int));
                            return (out, hit);
                        },
                        Some(c) => {
                            let inner = copy_range(s, e, c);
                            let updated = with_default_chars(&inner, text);
                            push_range(&mut out, s, pos, e);
                            push_all(&mut out, &updated);
                            push_all(&mut out, &close);
                            assert(out@ + with_subtitle_default_from(
                                s@,
                                id@,
                                text@,
                                c + close@.len(),
                            ).0 =~= before + with_subtitle_default_from(s@, id@, text@, pos as int).0);
                            hit = true;
                            pos = c + close.len();
                        },
                    }
                }
            },
        }
    }
}

/// `template_xml` with the default text of every `<subtitle>` whose id is
/// `subtitle.id` set to `text`; an error when there is none.
pub fn update_template_subtitle_default(template_xml: &str, subtitle: &TemplateSubtitle, text: &str) -> (r:
    Result<String, String>)
    ensures
        ({
            let (x, found) = with_subtitle_default_from(template_xml@, subtitle@.1, text@, 0);
            if found {
                r matches Ok(y) && y@ == x
            } else {
                r matches Err(m) && m@ == "template.xml 中未找到对应的 subtitle"@
            }
        }),
{
    let s = chars_of(template_xml);
    let id = chars_of(subtitle.id.as_str());
    let t = chars_of(text);
    let (x, found) = with_subtitle_default_chars(&s, &id, &t);
    if found {
        Ok(string_from_chars(x))
    } else {
        Err("template.xml 中未找到对应的 subtitle".to_string())
    }
}

} // verus!
