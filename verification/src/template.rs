//! Reading a template's media assets and clips, and writing the project file
//! that a new project starts from.

use vstd::prelude::*;
use crate::text::{chars_of, push_all, push_str, string_from_chars, trim, trim_range, first_match,
    lemma_first_match, find_char_from, is_digit};
use crate::xml::{escape_attr, push_escaped_attr, next_tag, open_pat, find_next_tag};
use crate::attr::{attr_value, attr_value_chars};
use crate::scan::{char_pair_views, element_blocks, element_blocks_chars, start_tags, start_tags_chars,
    char_views};
use crate::edit::{attr_or_empty, id_name, filepath_name, asset_name, asset_id_name};

verus! {

broadcast use vstd::string::group_string_axioms;

// ---------------------------------------------------------------------------
// Parsed template data
// ---------------------------------------------------------------------------

/// An asset of a media asset group: its id and file path.
pub struct TemplateAsset {
    pub id: String,
    pub filepath: String,
}

/// A media asset group and its default assets.
pub struct TemplateMediaAsset {
    pub id: String,
    pub assets: Vec<TemplateAsset>,
}

/// An area of a clip: its id, the asset it shows, and the inner text of its first
/// `<property>` element, if any.
pub struct TemplateClipArea {
    pub id: String,
    pub asset_id: String,
    pub property_inner: Option<String>,
}

/// A clip and its areas.
pub struct TemplateClip {
    pub id: String,
    pub areas: Vec<TemplateClipArea>,
}

/// A `<clips>` group: its id, its target track and its clips.
pub struct TemplateClips {
    pub id: String,
    pub target_track: String,
    pub clips: Vec<TemplateClip>,
}

pub type AssetV = (Seq<char>, Seq<char>);
pub type MediaV = (Seq<char>, Seq<AssetV>);
pub type AreaV = (Seq<char>, Seq<char>, Option<Seq<char>>);
pub type ClipV = (Seq<char>, Seq<AreaV>);
pub type ClipsV = (Seq<char>, Seq<char>, Seq<ClipV>);

impl View for TemplateAsset {
    type V = AssetV;

    open spec fn view(&self) -> AssetV {
        (self.id@, self.filepath@)
    }
}

impl View for TemplateMediaAsset {
    type V = MediaV;

    open spec fn view(&self) -> MediaV {
        (self.id@, self.assets@.map_values(|a: TemplateAsset| a@))
    }
}

pub open spec fn opt_view(o: Option<String>) -> Option<Seq<char>> {
    match o {
        Some(s) => Some(s@),
        None => None,
    }
}

impl View for TemplateClipArea {
    type V = AreaV;

    open spec fn view(&self) -> AreaV {
        (self.id@, self.asset_id@, opt_view(self.property_inner))
    }
}

impl View for TemplateClip {
    type V = ClipV;

    open spec fn view(&self) -> ClipV {
        (self.id@, self.areas@.map_values(|a: TemplateClipArea| a@))
    }
}

impl View for TemplateClips {
    type V = ClipsV;

    open spec fn view(&self) -> ClipsV {
        (self.id@, self.target_track@, self.clips@.map_values(|c: TemplateClip| c@))
    }
}

// ---------------------------------------------------------------------------
// Media assets
// ---------------------------------------------------------------------------

/// The inner text of the first element `<name>` of `s`, if any.
pub open spec fn first_inner(s: Seq<char>, name: Seq<char>) -> Option<Seq<char>> {
    if element_blocks(s, name).len() > 0 {
        Some(element_blocks(s, name)[0].1)
    } else {
        None
    }
}

/// The assets of the `<asset>` tags that have an id, with their file paths
/// (empty when absent).
pub open spec fn asset_entries(tags: Seq<Seq<char>>) -> Seq<AssetV>
    decreases tags.len(),
{
    if tags.len() == 0 {
        seq![]
    } else {
        let rest = asset_entries(tags.drop_last());
        match attr_value(tags.last(), id_name()) {
            Some(i) => rest.push((i, attr_or_empty(tags.last(), filepath_name()))),
            None => rest,
        }
    }
}

/// The media asset groups of the `<media-asset>` blocks that have an id, each with
/// the assets of its first `<default-asset>`.
pub open spec fn media_entries(blocks: Seq<(Seq<char>, Seq<char>)>) -> Seq<MediaV>
    decreases blocks.len(),
{
    if blocks.len() == 0 {
        seq![]
    } else {
        let rest = media_entries(blocks.drop_last());
        let (tag, inner) = blocks.last();
        match attr_value(tag, id_name()) {
            Some(i) => {
                let default = match first_inner(inner, "default-asset"@) {
                    Some(d) => d,
                    None => seq![],
                };
                rest.push((i, asset_entries(start_tags(default, asset_name()))))
            },
            None => rest,
        }
    }
}

/// The media asset groups of a template.
pub open spec fn template_media(s: Seq<char>) -> Seq<MediaV> {
    media_entries(element_blocks(s, "media-asset"@))
}

fn first_inner_chars(s: &[char], name: &[char]) -> (r: Option<Vec<char>>)
    ensures
        match r {
            Some(x) => first_inner(s@, name@) == Some(x@),
            None => first_inner(s@, name@) is None,
        },
{
    let blocks = element_blocks_chars(s, name);
    if blocks.len() > 0 {
        let mut x: Vec<char> = Vec::new();
        push_all(&mut x, &blocks[0].1);
        assert(char_pair_views(blocks@)[0] == (blocks@[0].0@, blocks@[0].1@));
        assert(x@ =~= blocks@[0].1@);
        Some(x)
    } else {
        None
    }
}

fn attr_or_empty_string(tag: &[char], a: &[char]) -> (r: String)
    requires
        a@.len() > 0,
    ensures
        r@ == attr_or_empty(tag@, a@),
{
    match attr_value_chars(tag, a) {
        Some(v) => string_from_chars(v),
        None => string_from_chars(Vec::new()),
    }
}

fn assets_of(default: &[char]) -> (r: Vec<TemplateAsset>)
    ensures
        r@.map_values(|a: TemplateAsset| a@) == asset_entries(start_tags(default@, asset_name())),
{
    let asset = chars_of("asset");
    let idn = chars_of("id");
    let fp = chars_of("filepath");
    proof {
        reveal_strlit("asset");
        reveal_strlit("id");
        reveal_strlit("filepath");
        assert(asset@ =~= asset_name());
        assert(idn@ =~= id_name());
        assert(fp@ =~= filepath_name());
    }
    let tags = start_tags_chars(default, &asset);
    let ghost ts = char_views(tags@);
    let mut r: Vec<TemplateAsset> = Vec::new();
    let mut i: usize = 0;
    while i < tags.len()
        invariant
            i <= tags@.len(),
            ts == char_views(tags@),
            ts == start_tags(default@, asset_name()),
            idn@ == id_name(),
            fp@ == filepath_name(),
            r@.map_values(|a: TemplateAsset| a@) == asset_entries(ts.take(i as int)),
        decreases tags@.len() - i,
    {
        assert(ts.take(i + 1).drop_last() =~= ts.take(i as int));
        assert(ts.take(i + 1).last() == tags@[i as int]@);
        match attr_value_chars(&tags[i], &idn) {
            Some(id) => {
                let a = TemplateAsset {
                    id: string_from_chars(id),
                    filepath: attr_or_empty_string(&tags[i], &fp),
                };
                let ghost old_r = r@;
                r.push(a);
                assert(r@.map_values(|a: TemplateAsset| a@) =~= old_r.map_values(
                    |a: TemplateAsset| a@,
                ).push(a@));
            },
            None => {},
        }
        i += 1;
    }
    assert(ts.take(i as int) =~= ts);
    r
}

/// The media asset groups of `xml_content`: each `<media-asset>` that has an id,
/// with the assets of its first `<default-asset>` that have an id.
pub fn parse_template_media_assets(xml_content: &str) -> (r: Vec<TemplateMediaAsset>)
    ensures
        r@.map_values(|m: TemplateMediaAsset| m@) == template_media(xml_content@),
{
    let s = chars_of(xml_content);
    let media = chars_of("media-asset");
    let default_asset = chars_of("default-asset");
    let idn = chars_of("id");
    proof {
        reveal_strlit("id");
        assert(idn@ =~= id_name());
    }
    let blocks = element_blocks_chars(&s, &media);
    let ghost bs = char_pair_views(blocks@);
    let mut r: Vec<TemplateMediaAsset> = Vec::new();
    let mut i: usize = 0;
    while i < blocks.len()
        invariant
            i <= blocks@.len(),
            bs == char_pair_views(blocks@),
            bs == element_blocks(xml_content@, "media-asset"@),
            idn@ == id_name(),
            default_asset@ == "default-asset"@,
            r@.map_values(|m: TemplateMediaAsset| m@) == media_entries(bs.take(i as int)),
        decreases blocks@.len() - i,
    {
        assert(bs.take(i + 1).drop_last() =~= bs.take(i as int));
        assert(bs.take(i + 1).last() == (blocks@[i as int].0@, blocks@[i as int].1@));
        match attr_value_chars(&blocks[i].0, &idn) {
            Some(id) => {
                let default = match first_inner_chars(&blocks[i].1, &default_asset) {
                    Some(d) => d,
                    None => Vec::new(),
                };
                let assets = assets_of(&default);
                let m = TemplateMediaAsset { id: string_from_chars(id), assets };
                let ghost old_r = r@;
                r.push(m);
                assert(r@.map_values(|m: TemplateMediaAsset| m@) =~= old_r.map_values(
                    |m: TemplateMediaAsset| m@,
                ).push(m@));
            },
            None => {},
        }
        i += 1;
    }
    assert(bs.take(i as int) =~= bs);
    r
}


// ---------------------------------------------------------------------------
// Clips
// ---------------------------------------------------------------------------

/// The areas of the `<area>` blocks that have both an id and an asset id, each
/// with the inner text of its first `<property>` element.
pub open spec fn area_entries(blocks: Seq<(Seq<char>, Seq<char>)>) -> Seq<AreaV>
    decreases blocks.len(),
{
    if blocks.len() == 0 {
        seq![]
    } else {
        let rest = area_entries(blocks.drop_last());
        let (tag, inner) = blocks.last();
        match (attr_value(tag, id_name()), attr_value(tag, asset_id_name())) {
            (Some(i), Some(a)) => rest.push((i, a, first_inner(inner, "property"@))),
            _ => rest,
        }
    }
}

/// The clips of the `<clip>` blocks that have an id, with their areas.
pub open spec fn clip_entries(blocks: Seq<(Seq<char>, Seq<char>)>) -> Seq<ClipV>
    decreases blocks.len(),
{
    if blocks.len() == 0 {
        seq![]
    } else {
        let rest = clip_entries(blocks.drop_last());
        let (tag, inner) = blocks.last();
        match attr_value(tag, id_name()) {
            Some(i) => rest.push((i, area_entries(element_blocks(inner, "area"@)))),
            None => rest,
        }
    }
}

/// The value of an attribute, or `clips` when absent.
pub open spec fn attr_or_clips(tag: Seq<char>, a: Seq<char>) -> Seq<char> {
    match attr_value(tag, a) {
        Some(v) => v,
        None => "clips"@,
    }
}

/// The `<clips>` groups of the blocks, with their id and target track (`clips`
/// when absent) and their clips.
pub open spec fn clips_entries(blocks: Seq<(Seq<char>, Seq<char>)>) -> Seq<ClipsV>
    decreases blocks.len(),
{
    if blocks.len() == 0 {
        seq![]
    } else {
        let rest = clips_entries(blocks.drop_last());
        let (tag, inner) = blocks.last();
        rest.push(
            (
                attr_or_clips(tag, id_name()),
                attr_or_clips(tag, "target-track"@),
                clip_entries(element_blocks(inner, "clip"@)),
            ),
        )
    }
}

/// The `<clips>` groups of a template.
pub open spec fn template_clips(s: Seq<char>) -> Seq<ClipsV> {
    clips_entries(element_blocks(s, "clips"@))
}

fn areas_of(s: &[char]) -> (r: Vec<TemplateClipArea>)
    ensures
        r@.map_values(|a: TemplateClipArea| a@) == area_entries(element_blocks(s@, "area"@)),
{
    let area = chars_of("area");
    let property = chars_of("property");
    let idn = chars_of("id");
    let aid = chars_of("asset-id");
    proof {
        reveal_strlit("id");
        reveal_strlit("asset-id");
        assert(idn@ =~= id_name());
        assert(aid@ =~= asset_id_name());
    }
    let blocks = element_blocks_chars(s, &area);
    let ghost bs = char_pair_views(blocks@);
    let mut r: Vec<TemplateClipArea> = Vec::new();
    let mut i: usize = 0;
    while i < blocks.len()
        invariant
            i <= blocks@.len(),
            bs == char_pair_views(blocks@),
            bs == element_blocks(s@, "area"@),
            idn@ == id_name(),
            aid@ == asset_id_name(),
            property@ == "property"@,
            r@.map_values(|a: TemplateClipArea| a@) == area_entries(bs.take(i as int)),
        decreases blocks@.len() - i,
    {
        assert(bs.take(i + 1).drop_last() =~= bs.take(i as int));
        assert(bs.take(i + 1).last() == (blocks@[i as int].0@, blocks@[i as int].1@));
        match (attr_value_chars(&blocks[i].0, &idn), attr_value_chars(&blocks[i].0, &aid)) {
            (Some(id), Some(asset_id)) => {
                let prop = match first_inner_chars(&blocks[i].1, &property) {
                    Some(x) => Some(string_from_chars(x)),
                    None => None,
                };
                let a = TemplateClipArea {
                    id: string_from_chars(id),
                    asset_id: string_from_chars(asset_id),
                    property_inner: prop,
                };
                let ghost old_r = r@;
                r.push(a);
                assert(r@.map_values(|a: TemplateClipArea| a@) =~= old_r.map_values(
                    |a: TemplateClipArea| a@,
                ).push(a@));
            },
            _ => {},
        }
        i += 1;
    }
    assert(bs.take(i as int) =~= bs);
    r
}

fn clips_of(s: &[char]) -> (r: Vec<TemplateClip>)
    ensures
        r@.map_values(|c: TemplateClip| c@) == clip_entries(element_blocks(s@, "clip"@)),
{
    let clip = chars_of("clip");
    let idn = chars_of("id");
    proof {
        reveal_strlit("id");
        assert(idn@ =~= id_name());
    }
    let blocks = element_blocks_chars(s, &clip);
    let ghost bs = char_pair_views(blocks@);
    let mut r: Vec<TemplateClip> = Vec::new();
    let mut i: usize = 0;
    while i < blocks.len()
        invariant
            i <= blocks@.len(),
            bs == char_pair_views(blocks@),
            bs == element_blocks(s@, "clip"@),
            idn@ == id_name(),
            r@.map_values(|c: TemplateClip| c@) == clip_entries(bs.take(i as int)),
        decreases blocks@.len() - i,
    {
        assert(bs.take(i + 1).drop_last() =~= bs.take(i as int));
        assert(bs.take(i + 1).last() == (blocks@[i as int].0@, blocks@[i as int].1@));
        match attr_value_chars(&blocks[i].0, &idn) {
            Some(id) => {
                let c = TemplateClip { id: string_from_chars(id), areas: areas_of(&blocks[i].1) };
                let ghost old_r = r@;
                r.push(c);
                assert(r@.map_values(|c: TemplateClip| c@) =~= old_r.map_values(
                    |c: TemplateClip| c@,
                ).push(c@));
            },
            None => {},
        }
        i += 1;
    }
    assert(bs.take(i as int) =~= bs);
    r
}

fn attr_or_clips_string(tag: &[char], a: &[char]) -> (r: String)
    requires
        a@.len() > 0,
    ensures
        r@ == attr_or_clips(tag@, a@),
{
    match attr_value_chars(tag, a) {
        Some(v) => string_from_chars(v),
        None => "clips".to_string(),
    }
}

/// The `<clips>` groups of `xml_content`: each with its id and target track
/// (`clips` when absent) and its clips that have an id, each with its areas that
/// have an id and an asset id.
pub fn parse_template_clips(xml_content: &str) -> (r: Vec<TemplateClips>)
    ensures
        r@.map_values(|c: TemplateClips| c@) == template_clips(xml_content@),
{
    let s = chars_of(xml_content);
    let clips = chars_of("clips");
    let idn = chars_of("id");
    let target = chars_of("target-track");
    proof {
        reveal_strlit("id");
        reveal_strlit("target-track");
        assert(idn@ =~= id_name());
    }
    let blocks = element_blocks_chars(&s, &clips);
    let ghost bs = char_pair_views(blocks@);
    let mut r: Vec<TemplateClips> = Vec::new();
    let mut i: usize = 0;
    while i < blocks.len()
        invariant
            i <= blocks@.len(),
            bs == char_pair_views(blocks@),
            bs == element_blocks(xml_content@, "clips"@),
            idn@ == id_name(),
            target@ == "target-track"@,
            target@.len() > 0,
            r@.map_values(|c: TemplateClips| c@) == clips_entries(bs.take(i as int)),
        decreases blocks@.len() - i,
    {
        assert(bs.take(i + 1).drop_last() =~= bs.take(i as int));
        assert(bs.take(i + 1).last() == (blocks@[i as int].0@, blocks@[i as int].1@));
        let c = TemplateClips {
            id: attr_or_clips_string(&blocks[i].0, &idn),
            target_track: attr_or_clips_string(&blocks[i].0, &target),
            clips: clips_of(&blocks[i].1),
        };
        let ghost old_r = r@;
        r.push(c);
        assert(r@.map_values(|c: TemplateClips| c@) =~= old_r.map_values(|c: TemplateClips| c@).push(
            c@,
        ));
        i += 1;
    }
    assert(bs.take(i as int) =~= bs);
    r
}


// ---------------------------------------------------------------------------
// The project file
// ---------------------------------------------------------------------------

/// `"<asset id=…>"` lines of a media asset group.
pub open spec fn render_assets(assets: Seq<AssetV>) -> Seq<char>
    decreases assets.len(),
{
    if assets.len() == 0 {
        seq![]
    } else {
        let a = assets.last();
        render_assets(assets.drop_last()) + "            <asset id=\""@ + escape_attr(a.0)
            + "\" filepath=\""@ + escape_attr(a.1) + "\" />\n"@
    }
}

/// The `<media-asset>` elements of the project file.
pub open spec fn render_media(media: Seq<MediaV>) -> Seq<char>
    decreases media.len(),
{
    if media.len() == 0 {
        seq![]
    } else {
        let m = media.last();
        render_media(media.drop_last()) + "        <media-asset id=\""@ + escape_attr(m.0)
            + "\">\n"@ + render_assets(m.1) + "        </media-asset>\n\n"@
    }
}

/// One property line: the trimmed line, indented, unless it is empty.
pub open spec fn line_out(l: Seq<char>) -> Seq<char> {
    if l.len() == 0 {
        seq![]
    } else {
        "                        "@ + l + "\n"@
    }
}

/// The lines of `p` from `from` on, each trimmed and re-indented, empty lines
/// dropped.
pub open spec fn property_lines(p: Seq<char>, from: int) -> Seq<char>
    decreases p.len() - from,
{
    if from < 0 || from > p.len() {
        seq![]
    } else {
        match first_match(p, seq!['\n'], from) {
            None => line_out(trim(p.skip(from))),
            Some(i) => {
                proof {
                    lemma_first_match(p, seq!['\n'], from);
                }
                line_out(trim(p.subrange(from, i))) + property_lines(p, i + 1)
            },
        }
    }
}

/// The `<area>` elements of a clip in the project file.
pub open spec fn render_areas(areas: Seq<AreaV>) -> Seq<char>
    decreases areas.len(),
{
    if areas.len() == 0 {
        seq![]
    } else {
        let a = areas.last();
        render_areas(areas.drop_last()) + match a.2 {
            Some(p) => "                <area id=\""@ + escape_attr(a.0) + "\" asset-id=\""@
                + escape_attr(a.1) + "\" offset=\"0\">\n"@ + "                    <property>\n"@
                + property_lines(p, 0) + "                    </property>\n"@
                + "                </area>\n"@,
            None => "                <area id=\""@ + escape_attr(a.0) + "\" asset-id=\""@
                + escape_attr(a.1) + "\" offset=\"0\" />\n"@,
        }
    }
}

/// The `<clip>` elements of a clips group in the project file.
pub open spec fn render_clip_list(clips: Seq<ClipV>) -> Seq<char>
    decreases clips.len(),
{
    if clips.len() == 0 {
        seq![]
    } else {
        let c = clips.last();
        render_clip_list(clips.drop_last()) + "            <clip id=\""@ + escape_attr(c.0)
            + "\">\n"@ + render_areas(c.1) + "            </clip>\n\n"@
    }
}

/// The `<clips>` elements of the project file.
pub open spec fn render_groups(groups: Seq<ClipsV>) -> Seq<char>
    decreases groups.len(),
{
    if groups.len() == 0 {
        seq![]
    } else {
        let g = groups.last();
        render_groups(groups.drop_last()) + "        <clips id=\""@ + escape_attr(g.0)
            + "\" target-track=\""@ + escape_attr(g.1) + "\">\n"@ + render_clip_list(g.2)
            + "        </clips>\n\n"@
    }
}

/// The project file for a template with the given attributes, media and clips.
pub open spec fn render_project(
    project_id: Seq<char>,
    template_id: Seq<char>,
    name: Seq<char>,
    version: Seq<char>,
    timeunit: Seq<char>,
    time: Seq<char>,
    media: Seq<MediaV>,
    groups: Seq<ClipsV>,
) -> Seq<char> {
    "<?xml version=\"1.0\" encoding=\"UTF-8\"?>\n"@ + "<!DOCTYPE xmeml>\n"@
        + "<xmeml version=\"5\">\n\n"@ + "    <project id=\""@ + escape_attr(project_id)
        + "\" name=\""@ + escape_attr(name) + "\" version=\""@ + escape_attr(version)
        + "\" timeunit=\""@ + escape_attr(timeunit) + "\">\n"@ + "        <meta>\n"@
        + "            <template id=\""@ + escape_attr(template_id) + "\" version=\""@
        + escape_attr(version) + "\"></template>\n"@ + "            <status>0</status>\n"@
        + "            <last-updtime>"@ + time + "</last-updtime>\n"@ + "        </meta>\n\n"@
        + render_media(media) + render_groups(groups) + "    </project>\n\n"@ + "</xmeml>\n"@
}

/// The first `<template>` start tag of `s`, if any.
pub open spec fn template_tag(s: Seq<char>) -> Option<Seq<char>> {
    if element_blocks(s, "template"@).len() > 0 {
        Some(element_blocks(s, "template"@)[0].0)
    } else {
        None
    }
}

/// The project file that a new project `project_id` starts from, made from the
/// template `s`, with `time` as its last update time.  `None` when the template
/// has no `<template>` element or that has no id.
pub open spec fn project_file(s: Seq<char>, project_id: Seq<char>, time: Seq<char>) -> Option<
    Seq<char>,
> {
    match template_tag(s) {
        None => None,
        Some(tag) => match attr_value(tag, id_name()) {
            None => None,
            Some(tid) => Some(
                render_project(
                    project_id,
                    tid,
                    match attr_value(tag, "name"@) {
                        Some(n) => n,
                        None => tid,
                    },
                    attr_or_empty(tag, "version"@),
                    match attr_value(tag, "timeunit"@) {
                        Some(t) => t,
                        None => "millisecond"@,
                    },
                    time,
                    template_media(s),
                    template_clips(s),
                ),
            ),
        },
    }
}

fn render_assets_into(out: &mut Vec<char>, assets: &Vec<TemplateAsset>)
    ensures
        final(out)@ == old(out)@ + render_assets(assets@.map_values(|a: TemplateAsset| a@)),
{
    let ghost start = out@;
    let ghost av = assets@.map_values(|a: TemplateAsset| a@);
    let mut i: usize = 0;
    while i < assets.len()
        invariant
            i <= assets@.len(),
            av == assets@.map_values(|a: TemplateAsset| a@),
            out@ == start + render_assets(av.take(i as int)),
        decreases assets@.len() - i,
    {
        assert(av.take(i + 1).drop_last() =~= av.take(i as int));
        assert(av.take(i + 1).last() == assets@[i as int]@);
        let ghost before = out@;
        push_str(out, "            <asset id=\"");
        push_escaped_attr(out, &chars_of(assets[i].id.as_str()));
        push_str(out, "\" filepath=\"");
        push_escaped_attr(out, &chars_of(assets[i].filepath.as_str()));
        push_str(out, "\" />\n");
        assert(out@ =~= start + render_assets(av.take(i + 1)));
        i += 1;
    }
    assert(av.take(i as int) =~= av);
}

fn render_media_into(out: &mut Vec<char>, media: &Vec<TemplateMediaAsset>)
    ensures
        final(out)@ == old(out)@ + render_media(media@.map_values(|m: TemplateMediaAsset| m@)),
{
    let ghost start = out@;
    let ghost mv = media@.map_values(|m: TemplateMediaAsset| m@);
    let mut i: usize = 0;
    while i < media.len()
        invariant
            i <= media@.len(),
            mv == media@.map_values(|m: TemplateMediaAsset| m@),
            out@ == start + render_media(mv.take(i as int)),
        decreases media@.len() - i,
    {
        assert(mv.take(i + 1).drop_last() =~= mv.take(i as int));
        assert(mv.take(i + 1).last() == media@[i as int]@);
        push_str(out, "        <media-asset id=\"");
        push_escaped_attr(out, &chars_of(media[i].id.as_str()));
        push_str(out, "\">\n");
        render_assets_into(out, &media[i].assets);
        push_str(out, "        </media-asset>\n\n");
        assert(out@ =~= start + render_media(mv.take(i + 1)));
        i += 1;
    }
    assert(mv.take(i as int) =~= mv);
}

fn property_lines_into(out: &mut Vec<char>, p: &[char])
    ensures
        final(out)@ == old(out)@ + property_lines(p@, 0),
{
    let ghost start = out@;
    let plen = p.len();
    let mut pos: usize = 0;
    loop
        invariant
            pos <= p@.len(),
            plen == p@.len(),
            start == old(out)@,
            out@ + property_lines(p@, pos as int) == start + property_lines(p@, 0),
        decreases p@.len() - pos,
    {
        let ghost before = out@;
        let end = match find_char_from(p, '\n', pos) {
            None => p.len(),
            Some(i) => {
                proof {
                    lemma_first_match(p@, seq!['\n'], pos as int);
                }
                i
            },
        };
        let (a, b) = trim_range(p, pos, end);
        if b > a {
            push_str(out, "                        ");
            crate::text::push_range(out, p, a, b);
            push_str(out, "\n");
        }
        if end == p.len() {
            assert(p@.subrange(pos as int, end as int) =~= p@.skip(pos as int));
            assert(out@ =~= before + property_lines(p@, pos as int));
            return;
        }
        assert(out@ + property_lines(p@, end + 1) =~= before + property_lines(p@, pos as int));
        pos = end + 1;
    }
}

fn render_areas_into(out: &mut Vec<char>, areas: &Vec<TemplateClipArea>)
    ensures
        final(out)@ == old(out)@ + render_areas(areas@.map_values(|a: TemplateClipArea| a@)),
{
    let ghost start = out@;
    let ghost av = areas@.map_values(|a: TemplateClipArea| a@);
    let mut i: usize = 0;
    while i < areas.len()
        invariant
            i <= areas@.len(),
            av == areas@.map_values(|a: TemplateClipArea| a@),
            out@ == start + render_areas(av.take(i as int)),
        decreases areas@.len() - i,
    {
        assert(av.take(i + 1).drop_last() =~= av.take(i as int));
        assert(av.take(i + 1).last() == areas@[i as int]@);
        push_str(out, "                <area id=\"");
        push_escaped_attr(out, &chars_of(areas[i].id.as_str()));
        push_str(out, "\" asset-id=\"");
        push_escaped_attr(out, &chars_of(areas[i].asset_id.as_str()));
        match &areas[i].property_inner {
            Some(p) => {
                push_str(out, "\" offset=\"0\">\n");
                push_str(out, "                    <property>\n");
                property_lines_into(out, &chars_of(p.as_str()));
                push_str(out, "                    </property>\n");
                push_str(out, "                </area>\n");
            },
            None => {
                push_str(out, "\" offset=\"0\" />\n");
            },
        }
        assert(out@ =~= start + render_areas(av.take(i + 1)));
        i += 1;
    }
    assert(av.take(i as int) =~= av);
}

fn render_clip_list_into(out: &mut Vec<char>, clips: &Vec<TemplateClip>)
    ensures
        final(out)@ == old(out)@ + render_clip_list(clips@.map_values(|c: TemplateClip| c@)),
{
    let ghost start = out@;
    let ghost cv = clips@.map_values(|c: TemplateClip| c@);
    let mut i: usize = 0;
    while i < clips.len()
        invariant
            i <= clips@.len(),
            cv == clips@.map_values(|c: TemplateClip| c@),
            out@ == start + render_clip_list(cv.take(i as int)),
        decreases clips@.len() - i,
    {
        assert(cv.take(i + 1).drop_last() =~= cv.take(i as int));
        assert(cv.take(i + 1).last() == clips@[i as int]@);
        push_str(out, "            <clip id=\"");
        push_escaped_attr(out, &chars_of(clips[i].id.as_str()));
        push_str(out, "\">\n");
        render_areas_into(out, &clips[i].areas);
        push_str(out, "            </clip>\n\n");
        assert(out@ =~= start + render_clip_list(cv.take(i + 1)));
        i += 1;
    }
    assert(cv.take(i as int) =~= cv);
}

fn render_groups_into(out: &mut Vec<char>, groups: &Vec<TemplateClips>)
    ensures
        final(out)@ == old(out)@ + render_groups(groups@.map_values(|g: TemplateClips| g@)),
{
    let ghost start = out@;
    let ghost gv = groups@.map_values(|g: TemplateClips| g@);
    let mut i: usize = 0;
    while i < groups.len()
        invariant
            i <= groups@.len(),
            gv == groups@.map_values(|g: TemplateClips| g@),
            out@ == start + render_groups(gv.take(i as int)),
        decreases groups@.len() - i,
    {
        assert(gv.take(i + 1).drop_last() =~= gv.take(i as int));
        assert(gv.take(i + 1).last() == groups@[i as int]@);
        push_str(out, "        <clips id=\"");
        push_escaped_attr(out, &chars_of(groups[i].id.as_str()));
        push_str(out, "\" target-track=\"");
        push_escaped_attr(out, &chars_of(groups[i].target_track.as_str()));
        push_str(out, "\">\n");
        render_clip_list_into(out, &groups[i].clips);
        push_str(out, "        </clips>\n\n");
        assert(out@ =~= start + render_groups(gv.take(i + 1)));
        i += 1;
    }
    assert(gv.take(i as int) =~= gv);
}

fn render_header_into(
    out: &mut Vec<char>,
    project_id: &[char],
    template_id: &[char],
    name: &[char],
    version: &[char],
    timeunit: &[char],
    time: &[char],
)
    ensures
        final(out)@ == old(out)@ + "<?xml version=\"1.0\" encoding=\"UTF-8\"?>\n"@ + "<!DOCTYPE xmeml>\n"@
            + "<xmeml version=\"5\">\n\n"@ + "    <project id=\""@ + escape_attr(project_id@)
            + "\" name=\""@ + escape_attr(name@) + "\" version=\""@ + escape_attr(version@)
            + "\" timeunit=\""@ + escape_attr(timeunit@) + "\">\n"@ + "        <meta>\n"@
            + "            <template id=\""@ + escape_attr(template_id@) + "\" version=\""@
            + escape_attr(version@) + "\"></template>\n"@ + "            <status>0</status>\n"@
            + "            <last-updtime>"@ + time@ + "</last-updtime>\n"@ + "        </meta>\n\n"@,
{
    push_str(out, "<?xml version=\"1.0\" encoding=\"UTF-8\"?>\n");
    push_str(out, "<!DOCTYPE xmeml>\n");
    push_str(out, "<xmeml version=\"5\">\n\n");
    push_str(out, "    <project id=\"");
    push_escaped_attr(out, project_id);
    push_str(out, "\" name=\"");
    push_escaped_attr(out, name);
    push_str(out, "\" version=\"");
    push_escaped_attr(out, version);
    push_str(out, "\" timeunit=\"");
    push_escaped_attr(out, timeunit);
    push_str(out, "\">\n");
    push_str(out, "        <meta>\n");
    push_str(out, "            <template id=\"");
    push_escaped_attr(out, template_id);
    push_str(out, "\" version=\"");
    push_escaped_attr(out, version);
    push_str(out, "\"></template>\n");
    push_str(out, "            <status>0</status>\n");
    push_str(out, "            <last-updtime>");
    push_all(out, time);
    push_str(out, "</last-updtime>\n");
    push_str(out, "        </meta>\n\n");
}

/// The project file that a new project `project_id` starts from, made from
/// `template_xml`, with `last_update_text` as its last update time.  An error when
/// the template has no `<template>` element, or that has no id.
pub fn generate_project_file_xml_at(template_xml: &str, project_id: &str, last_update_text: &str) -> (r:
    Result<String, String>)
    ensures
        match project_file(template_xml@, project_id@, last_update_text@) {
            Some(x) => r matches Ok(y) && y@ == x,
            None => r matches Err(m) && if template_tag(template_xml@) is None {
                m@ == "模板 XML 缺少 template 节点"@
            } else {
                m@ == "模板 XML 缺少 template id"@
            },
        },
{
    let s = chars_of(template_xml);
    let blocks = element_blocks_chars(&s, &chars_of("template"));
    if blocks.len() == 0 {
        return Err("模板 XML 缺少 template 节点".to_string());
    }
    assert(char_pair_views(blocks@)[0] == (blocks@[0].0@, blocks@[0].1@));
    let tag = &blocks[0].0;
    let idn = chars_of("id");
    let name_attr = chars_of("name");
    let version_attr = chars_of("version");
    let timeunit_attr = chars_of("timeunit");
    proof {
        reveal_strlit("id");
        reveal_strlit("name");
        reveal_strlit("version");
        reveal_strlit("timeunit");
        assert(idn@ =~= id_name());
    }
    let tid = match attr_value_chars(tag, &idn) {
        Some(t) => t,
        None => {
            return Err("模板 XML 缺少 template id".to_string());
        },
    };
    let name = match attr_value_chars(tag, &name_attr) {
        Some(n) => n,
        None => {
            let mut n: Vec<char> = Vec::new();
            push_all(&mut n, &tid);
            assert(n@ =~= tid@);
            n
        },
    };
    let version = match attr_value_chars(tag, &version_attr) {
        Some(v) => v,
        None => Vec::new(),
    };
    let timeunit = match attr_value_chars(tag, &timeunit_attr) {
        Some(t) => t,
        None => chars_of("millisecond"),
    };
    let media = parse_template_media_assets(template_xml);
    let groups = parse_template_clips(template_xml);
    let mut out: Vec<char> = Vec::new();
    render_header_into(
        &mut out,
        &chars_of(project_id),
        &tid,
        &name,
        &version,
        &timeunit,
        &chars_of(last_update_text),
    );
    render_media_into(&mut out, &media);
    render_groups_into(&mut out, &groups);
    push_str(&mut out, "    </project>\n\n");
    push_str(&mut out, "</xmeml>\n");
    assert(version@ == attr_or_empty(tag@, "version"@));
    assert(out@ =~= project_file(template_xml@, project_id@, last_update_text@)->0);
    Ok(string_from_chars(out))
}

/// All characters of `s` are decimal digits.
pub open spec fn all_digits(s: Seq<char>) -> bool {
    forall|k: int| 0 <= k < s.len() ==> is_digit(#[trigger] s[k])
}

/// The shape of chrono's `%Y-%m-%d %H:%M:%S`: a year of at least four digits,
/// with a sign before it outside 0 to 9999, then two-digit month, day, hour,
/// minute and second, as `-MM-DD hh:mm:ss`.
pub open spec fn local_time_text(t: Seq<char>) -> bool {
    t.len() >= 19 && {
        let y = t.take(t.len() - 15);
        let r = t.skip(t.len() - 15);
        &&& (all_digits(y) || (y[0] == '+' || y[0] == '-') && all_digits(y.skip(1))
            && y.len() >= 5)
        &&& r[0] == '-' && is_digit(r[1]) && is_digit(r[2])
        &&& r[3] == '-' && is_digit(r[4]) && is_digit(r[5])
        &&& r[6] == ' ' && is_digit(r[7]) && is_digit(r[8])
        &&& r[9] == ':' && is_digit(r[10]) && is_digit(r[11])
        &&& r[12] == ':' && is_digit(r[13]) && is_digit(r[14])
    }
}

/// The local date and time of a Unix timestamp in milliseconds, as
/// `YYYY-MM-DD HH:MM:SS` (chrono's `DateTime::from_timestamp_millis`, shown in the
/// machine's time zone); the current local time when the timestamp is out of
/// range.  Claimed: the text has the shape chrono documents for this format
/// (`local_time_text`); which date and time it shows is not claimed, as it
/// depends on the time zone and, for out-of-range timestamps, on the clock.
#[verifier::external_body]
pub(crate) fn format_timestamp(timestamp_ms: u128) -> (r: String)
    ensures
        local_time_text(r@),
{
    i64::try_from(timestamp_ms)
        .ok()
        .and_then(chrono::DateTime::from_timestamp_millis)
        .map(|datetime| {
            datetime.with_timezone(&chrono::Local).format("%Y-%m-%d %H:%M:%S").to_string()
        })
        .unwrap_or_else(|| chrono::Local::now().format("%Y-%m-%d %H:%M:%S").to_string())
}

/// The project file that a new project `project_id` starts from, made from
/// `template_xml`, with the local date and time of `last_update_time` as its last
/// update time.  An error when the template has no `<template>` element, or that
/// has no id.
pub fn generate_project_file_xml(template_xml: &str, project_id: &str, last_update_time: u128) -> (r:
    Result<String, String>)
    ensures
        template_tag(template_xml@) is None ==> (r matches Err(m) && m@
            == "模板 XML 缺少 template 节点"@),
        template_tag(template_xml@) matches Some(tag) ==> (attr_value(tag, id_name()) is None
            ==> (r matches Err(m) && m@ == "模板 XML 缺少 template id"@)),
        (template_tag(template_xml@) matches Some(tag) && attr_value(tag, id_name()) is Some)
            ==> r is Ok,
        r matches Ok(y) ==> exists|time: Seq<char>| local_time_text(time) && project_file(
            template_xml@,
            project_id@,
            time,
        ) == Some(y@),
{
    let time = format_timestamp(last_update_time);
    let r = generate_project_file_xml_at(template_xml, project_id, time.as_str());
    assert(r matches Ok(y) ==> project_file(template_xml@, project_id@, time@) == Some(y@));
    r
}


// ---------------------------------------------------------------------------
// Template version
// ---------------------------------------------------------------------------

/// The `version` of the first `<template>` start tag of `s`.
pub open spec fn tag_version(s: Seq<char>) -> Option<Seq<char>> {
    match next_tag(s, open_pat("template"@), 0) {
        None => None,
        Some((t, e)) => attr_value(s.subrange(t, e), "version"@),
    }
}

/// The `version` attribute of the first `<template>` start tag of
/// `xml_content`.
pub fn template_tag_version(xml_content: &str) -> (r: Option<String>)
    ensures
        opt_view(r) == tag_version(xml_content@),
{
    let s = chars_of(xml_content);
    let open = chars_of("<template");
    let version = chars_of("version");
    proof {
        reveal_strlit("<template");
        reveal_strlit("template");
        reveal_strlit("version");
        assert(open@ =~= open_pat("template"@));
    }
    match find_next_tag(&s, &open, 0) {
        None => None,
        Some((t, e)) => {
            proof {
                crate::xml::lemma_next_tag(s@, open@, 0);
            }
            let tag = crate::text::copy_range(&s, t, e);
            match attr_value_chars(&tag, &version) {
                Some(v) => Some(string_from_chars(v)),
                None => None,
            }
        },
    }
}

/// Whether the template's version, trimmed, is the non-blank `template_version`,
/// trimmed.
pub open spec fn matches_version(s: Seq<char>, v: Seq<char>) -> bool {
    trim(v).len() > 0 && match tag_version(s) {
        Some(lv) => trim(lv) == trim(v),
        None => false,
    }
}

/// Whether the version of the template `xml_content` is `template_version`, both
/// trimmed; never for a blank `template_version`.
pub fn xml_matches_template_version(xml_content: &str, template_version: &str) -> (r: bool)
    ensures
        r == matches_version(xml_content@, template_version@),
{
    let v = chars_of(template_version);
    let (a, b) = trim_range(&v, 0, v.len());
    assert(v@.subrange(0, v@.len() as int) =~= v@);
    if a == b {
        return false;
    }
    let ev = crate::text::copy_range(&v, a, b);
    match template_tag_version(xml_content) {
        None => false,
        Some(lv) => {
            let l = chars_of(lv.as_str());
            let (c, d) = trim_range(&l, 0, l.len());
            assert(l@.subrange(0, l@.len() as int) =~= l@);
            let lt = crate::text::copy_range(&l, c, d);
            crate::edit::chars_eq(&lt, &ev)
        },
    }
}

} // verus!
