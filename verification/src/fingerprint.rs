//! The fingerprints of a template's default assets: which file each asset
//! uses, each distinct file hashed once, and the list handed to the editor.

use vstd::prelude::*;
use crate::attr::{attr_value, attr_value_chars};
use crate::resource::{resolve_template_resource_filepath, resolved_resource, PathStyle};
use crate::scan::{char_pair_views, char_views, element_blocks, element_blocks_chars, start_tags, start_tags_chars};
use crate::text::{chars_of, string_from_chars};

verus! {

broadcast use vstd::string::group_string_axioms;

/// The `<asset>` start tags of every `<default-asset>` element of the template
/// in `blocks`, in order.
pub open spec fn asset_tags_of(blocks: Seq<(Seq<char>, Seq<char>)>) -> Seq<Seq<char>>
    decreases blocks.len(),
{
    if blocks.len() == 0 {
        seq![]
    } else {
        asset_tags_of(blocks.drop_last()) + start_tags(blocks.last().1, "asset"@)
    }
}

/// Each asset tag with an `id`: the id and where its `filepath` (empty when
/// missing) points.
pub open spec fn asset_sources_of(
    tags: Seq<Seq<char>>,
    template_dir: Seq<char>,
    assets_dir: Seq<char>,
    style: PathStyle,
) -> Seq<(Seq<char>, Seq<char>)>
    decreases tags.len(),
{
    if tags.len() == 0 {
        seq![]
    } else {
        let rest = asset_sources_of(tags.drop_last(), template_dir, assets_dir, style);
        match attr_value(tags.last(), "id"@) {
            None => rest,
            Some(id) => {
                let f = match attr_value(tags.last(), "filepath"@) {
                    Some(f) => f,
                    None => seq![],
                };
                rest.push((id, resolved_resource(template_dir, assets_dir, f, style)))
            },
        }
    }
}

/// The default assets of `template_xml`: for each asset with an id, in order,
/// the id and the path its file resolves to.
pub open spec fn default_asset_sources(
    template_xml: Seq<char>,
    template_dir: Seq<char>,
    assets_dir: Seq<char>,
    style: PathStyle,
) -> Seq<(Seq<char>, Seq<char>)> {
    asset_sources_of(
        asset_tags_of(element_blocks(template_xml, "default-asset"@)),
        template_dir,
        assets_dir,
        style,
    )
}

/// The default assets of a template and the files they use (see
/// `default_asset_sources`).
pub fn template_default_asset_sources(
    template_xml: &str,
    template_dir: &str,
    assets_dir: &str,
    style: PathStyle,
) -> (r: Vec<(String, String)>)
    ensures
        r@.map_values(|x: (String, String)| (x.0@, x.1@)) == default_asset_sources(
            template_xml@,
            template_dir@,
            assets_dir@,
            style,
        ),
{
    let xml = chars_of(template_xml);
    let blocks = element_blocks_chars(&xml, &chars_of("default-asset"));
    let ghost bs = char_pair_views(blocks@);
    let id_name = chars_of("id");
    let path_name = chars_of("filepath");
    proof {
        reveal_strlit("id");
        reveal_strlit("filepath");
    }
    assert(id_name@.len() > 0 && path_name@.len() > 0);
    let mut r: Vec<(String, String)> = Vec::new();
    let mut b: usize = 0;
    assert(bs.take(0) =~= Seq::<(Seq<char>, Seq<char>)>::empty());
    while b < blocks.len()
        invariant
            b <= blocks@.len(),
            bs == char_pair_views(blocks@),
            id_name@ == "id"@,
            path_name@ == "filepath"@,
            id_name@.len() > 0,
            path_name@.len() > 0,
            r@.map_values(|x: (String, String)| (x.0@, x.1@)) == asset_sources_of(
                asset_tags_of(bs.take(b as int)),
                template_dir@,
                assets_dir@,
                style,
            ),
        decreases blocks@.len() - b,
    {
        let tags = start_tags_chars(&blocks[b].1, &chars_of("asset"));
        let ghost ts = char_views(tags@);
        let ghost before = asset_tags_of(bs.take(b as int));
        assert(bs.take(b + 1).drop_last() =~= bs.take(b as int));
        assert(bs.take(b + 1).last() == (blocks@[b as int].0@, blocks@[b as int].1@));
        assert(asset_tags_of(bs.take(b + 1)) == before + ts);
        let mut i: usize = 0;
        assert(before + ts.take(0) =~= before);
        while i < tags.len()
            invariant
                i <= tags@.len(),
                ts == char_views(tags@),
                id_name@ == "id"@,
                path_name@ == "filepath"@,
                id_name@.len() > 0,
                path_name@.len() > 0,
                r@.map_values(|x: (String, String)| (x.0@, x.1@)) == asset_sources_of(
                    before + ts.take(i as int),
                    template_dir@,
                    assets_dir@,
                    style,
                ),
            decreases tags@.len() - i,
        {
            let ghost cur = before + ts.take(i + 1);
            assert(cur.drop_last() =~= before + ts.take(i as int));
            assert(cur.last() == tags@[i as int]@);
            match attr_value_chars(&tags[i], &id_name) {
                None => {},
                Some(id) => {
                    let f = match attr_value_chars(&tags[i], &path_name) {
                        Some(f) => f,
                        None => Vec::new(),
                    };
                    let fs = string_from_chars(f);
                    let resolved = resolve_template_resource_filepath(
                        template_dir,
                        assets_dir,
                        fs.as_str(),
                        style,
                    );
                    let ghost old_r = r@;
                    let ids = string_from_chars(id);
                    r.push((ids, resolved));
                    assert(r@.map_values(|x: (String, String)| (x.0@, x.1@)) =~= old_r.map_values(
                        |x: (String, String)| (x.0@, x.1@),
                    ).push((ids@, resolved@)));
                },
            }
            i += 1;
        }
        assert(ts.take(i as int) =~= ts);
        b += 1;
    }
    assert(bs.take(b as int) =~= bs);
    r
}

/// The distinct paths among `paths`, in the order they first occur; missing
/// files (`None`) are left out.
pub open spec fn distinct_paths(paths: Seq<Option<Seq<char>>>) -> Seq<Seq<char>>
    decreases paths.len(),
{
    if paths.len() == 0 {
        seq![]
    } else {
        let d = distinct_paths(paths.drop_last());
        match paths.last() {
            Some(p) => if d.contains(p) {
                d
            } else {
                d.push(p)
            },
            None => d,
        }
    }
}

/// The views of optional strings.
pub open spec fn opt_string_views(v: Seq<Option<String>>) -> Seq<Option<Seq<char>>> {
    v.map_values(
        |x: Option<String>|
            match x {
                Some(s) => Some(s@),
                None => None,
            },
    )
}

/// Numbers the files of the assets: the distinct paths (see `distinct_paths`),
/// and for each asset the position of its path among them, none for a missing
/// file.
pub fn index_distinct_paths(paths: &Vec<Option<String>>) -> (r: (Vec<Option<usize>>, Vec<String>))
    ensures
        r.1@.map_values(|x: String| x@) == distinct_paths(opt_string_views(paths@)),
        r.0@.len() == paths@.len(),
        forall|i: int|
            0 <= i < paths@.len() ==> match #[trigger] paths@[i] {
                None => r.0@[i] is None,
                Some(p) => r.0@[i] matches Some(j) && j < r.1@.len() && r.1@[j as int]@ == p@,
            },
{
    let ghost ps = opt_string_views(paths@);
    let mut indices: Vec<Option<usize>> = Vec::new();
    let mut distinct: Vec<String> = Vec::new();
    let mut i: usize = 0;
    assert(ps.take(0) =~= Seq::<Option<Seq<char>>>::empty());
    while i < paths.len()
        invariant
            i <= paths@.len(),
            ps == opt_string_views(paths@),
            distinct@.map_values(|x: String| x@) == distinct_paths(ps.take(i as int)),
            indices@.len() == i,
            forall|k: int|
                0 <= k < i ==> match #[trigger] paths@[k] {
                    None => indices@[k] is None,
                    Some(p) => indices@[k] matches Some(j) && j < distinct@.len()
                        && distinct@[j as int]@ == p@,
                },
        decreases paths@.len() - i,
    {
        let ghost ds = distinct@.map_values(|x: String| x@);
        assert(ps.take(i + 1).drop_last() =~= ps.take(i as int));
        assert(ps.take(i + 1).last() == ps[i as int]);
        match &paths[i] {
            None => {
                indices.push(None);
            },
            Some(p) => {
                let pc = chars_of(p.as_str());
                let mut j: usize = 0;
                while j < distinct.len() && !crate::edit::chars_eq(
                    &chars_of(distinct[j].as_str()),
                    &pc,
                )
                    invariant
                        j <= distinct@.len(),
                        ds == distinct@.map_values(|x: String| x@),
                        pc@ == p@,
                        forall|k: int| 0 <= k < j ==> ds[k] != p@,
                    decreases distinct@.len() - j,
                {
                    j += 1;
                }
                let found = if j < distinct.len() {
                    Some(j)
                } else {
                    None
                };
                match found {
                    Some(j) => {
                        assert(ds[j as int] == p@);
                        assert(ds.contains(p@));
                        indices.push(Some(j));
                    },
                    None => {
                        assert(!ds.contains(p@)) by {
                            if ds.contains(p@) {
                                let k = choose|k: int| 0 <= k < ds.len() && ds[k] == p@;
                                assert(ds[k] != p@);
                            }
                        }
                        let n = distinct.len();
                        indices.push(Some(n));
                        distinct.push(p.clone());
                        assert(distinct@.map_values(|x: String| x@) =~= ds.push(p@));
                    },
                }
            },
        }
        i += 1;
    }
    assert(ps.take(i as int) =~= ps);
    (indices, distinct)
}

/// The fingerprint of a default asset.
pub struct ProjectAssetFingerprint {
    pub material_key: String,
    pub fingerprint: String,
}

/// The fingerprint list: one entry per asset, in order, with the fingerprint
/// of the file at the asset's position in `fingerprints`, empty when the file
/// is missing or has no fingerprint.
pub fn project_asset_fingerprint_list(
    assets: Vec<(String, Option<usize>)>,
    fingerprints: &Vec<String>,
) -> (r: Vec<ProjectAssetFingerprint>)
    ensures
        r@.len() == assets@.len(),
        forall|i: int|
            0 <= i < assets@.len() ==> (#[trigger] r@[i]).material_key == assets@[i].0
                && r@[i].fingerprint@ == match assets@[i].1 {
                Some(j) => if j < fingerprints@.len() {
                    fingerprints@[j as int]@
                } else {
                    seq![]
                },
                None => seq![],
            },
{
    let ghost all = assets@;
    let n = assets.len();
    let mut rest = assets;
    let mut r: Vec<ProjectAssetFingerprint> = Vec::new();
    let mut k: usize = 0;
    while rest.len() > 0
        invariant
            k <= all.len(),
            all.len() == n,
            rest@ == all.skip(k as int),
            r@.len() == k,
            forall|i: int|
                0 <= i < k ==> (#[trigger] r@[i]).material_key == all[i].0 && r@[i].fingerprint@
                    == match all[i].1 {
                    Some(j) => if j < fingerprints@.len() {
                        fingerprints@[j as int]@
                    } else {
                        seq![]
                    },
                    None => seq![],
                },
        decreases rest@.len(),
    {
        let (key, index) = rest.remove(0);
        assert((key, index) == all[k as int]);
        let fingerprint = match index {
            Some(j) => if j < fingerprints.len() {
                fingerprints[j].clone()
            } else {
                String::new()
            },
            None => String::new(),
        };
        r.push(ProjectAssetFingerprint { material_key: key, fingerprint });
        k += 1;
        assert(rest@ =~= all.skip(k as int));
    }
    r
}

/// The id of a project's template: the `id` of its first `<template>` element,
/// empty when there is none.
pub open spec fn project_template_id(template_xml: Seq<char>) -> Seq<char> {
    let blocks = element_blocks(template_xml, "template"@);
    if blocks.len() == 0 {
        seq![]
    } else {
        match attr_value(blocks[0].0, "id"@) {
            Some(v) => v,
            None => seq![],
        }
    }
}

/// The id of a project's template (see `project_template_id`).
pub fn template_id_of(template_xml: &str) -> (r: String)
    ensures
        r@ == project_template_id(template_xml@),
{
    let xml = chars_of(template_xml);
    let blocks = element_blocks_chars(&xml, &chars_of("template"));
    if blocks.len() == 0 {
        return String::new();
    }
    let id = chars_of("id");
    proof {
        reveal_strlit("id");
        assert(char_pair_views(blocks@)[0] == (blocks@[0].0@, blocks@[0].1@));
    }
    match attr_value_chars(&blocks[0].0, &id) {
        Some(v) => string_from_chars(v),
        None => String::new(),
    }
}

} // verus!
