//! Names and choices around a project's files: workspace directory names, the
//! names of copied and generated media, which workspaces and files a deletion
//! touches, and free names for a downloaded manual.

use vstd::prelude::*;
use crate::attr::{attr_value, attr_value_chars};
use crate::edit::{
    asset_name, clear_project_generatepaths, generatepath_name, id_name, project_tag_name,
    remove_elements, rewrite_from, unclosed_message, update_project_root_identity,
    with_root_identity, EditKind,
};
use crate::xml::{open_pat, tag_candidate};
use crate::paths::{file_char, map_chars, name_char, or_default, sanitize_file_name, sanitize_name};
use crate::resource::{asset_path_candidates, file_name, last_dot, PathStyle};
use crate::scan::{char_views, start_tags, start_tags_chars, string_views};
use crate::text::{chars_of, decimal, push_all, push_str, push_u64, string_from_chars, trim, trim_set};

verus! {

broadcast use vstd::string::group_string_axioms;

/// A template or project id as a directory name (see `sanitize_name`).
pub open spec fn dir_name(v: Seq<char>) -> Seq<char> {
    or_default(map_chars(v, |c: char| name_char(c)), "template"@)
}

/// The directory of a project made from a template: the two ids as directory
/// names, joined by `-`.
pub fn project_workspace_id(template_id: &str, project_id: &str) -> (r: String)
    ensures
        r@ == dir_name(template_id@) + "-"@ + dir_name(project_id@),
{
    let a = sanitize_name(template_id);
    let b = sanitize_name(project_id);
    let mut out: Vec<char> = Vec::new();
    push_str(&mut out, a.as_str());
    push_str(&mut out, "-");
    push_str(&mut out, b.as_str());
    string_from_chars(out)
}

/// The trimmed asset id, or the error for a blank one.
pub fn check_asset_id(asset_id: &str) -> (r: Result<String, String>)
    ensures
        trim(asset_id@).len() > 0 ==> (r matches Ok(x) && x@ == trim(asset_id@)),
        trim(asset_id@).len() == 0 ==> (r matches Err(m) && m@ == "assetId 不能为空"@),
{
    let c = chars_of(asset_id);
    let (a, b) = crate::text::trim_range(&c, 0, c.len());
    assert(c@.subrange(0, c@.len() as int) =~= c@);
    if a == b {
        return Err("assetId 不能为空".to_string());
    }
    Ok(string_from_chars(crate::text::copy_range(&c, a, b)))
}

/// The name of a media file kept for an asset: the asset id as a directory
/// name, `_`, the time in milliseconds, `.` and the source's extension (`mp4`
/// when it has none or an empty one).
pub open spec fn asset_media_name(asset_id: Seq<char>, timestamp_ms: u64, extension: Option<Seq<char>>) -> Seq<
    char,
> {
    let ext = match extension {
        Some(e) => if e.len() > 0 {
            e
        } else {
            "mp4"@
        },
        None => "mp4"@,
    };
    dir_name(asset_id) + "_"@ + decimal(timestamp_ms as nat) + "."@ + ext
}

/// The name of a generated or preserved media file of an asset (see
/// `asset_media_name`).
pub fn asset_media_file_name(asset_id: &str, timestamp_ms: u64, extension: Option<&str>) -> (r:
    String)
    ensures
        r@ == asset_media_name(
            asset_id@,
            timestamp_ms,
            match extension {
                Some(e) => Some(e@),
                None => None,
            },
        ),
{
    let a = sanitize_name(asset_id);
    let mut out: Vec<char> = Vec::new();
    push_str(&mut out, a.as_str());
    push_str(&mut out, "_");
    push_u64(&mut out, timestamp_ms);
    push_str(&mut out, ".");
    match extension {
        Some(e) => {
            let ec = chars_of(e);
            if ec.len() > 0 {
                push_all(&mut out, &ec);
            } else {
                push_str(&mut out, "mp4");
            }
        },
        None => push_str(&mut out, "mp4"),
    }
    string_from_chars(out)
}

/// A preserved preview of the asset: its name starts with the asset id as a
/// directory name and `_`.
pub open spec fn is_asset_preview(name: Seq<char>, asset_id: Seq<char>) -> bool {
    let prefix = dir_name(asset_id) + "_"@;
    prefix.len() <= name.len() && name.take(prefix.len() as int) == prefix
}

/// Whether the file `name` is a preserved preview of the asset (see
/// `is_asset_preview`).
pub fn is_asset_preview_file_name(name: &str, asset_id: &str) -> (r: bool)
    ensures
        r == is_asset_preview(name@, asset_id@),
{
    let a = sanitize_name(asset_id);
    let mut prefix: Vec<char> = Vec::new();
    push_str(&mut prefix, a.as_str());
    push_str(&mut prefix, "_");
    let n = chars_of(name);
    if prefix.len() > n.len() {
        return false;
    }
    let head = crate::text::copy_range(&n, 0, prefix.len());
    assert(head@ =~= n@.take(prefix@.len() as int));
    crate::edit::chars_eq(&head, &prefix)
}

/// The name of an imported video inside the project: its content hash, `_`
/// and its file name made safe (see `sanitize_file_name`), `video.mp4` when the
/// source has no file name.
pub open spec fn imported_asset_name(hash: Seq<char>, source_name: Option<Seq<char>>) -> Seq<char> {
    hash + "_"@ + match source_name {
        Some(n) => or_default(
            trim_set(map_chars(n, |c: char| file_char(c)), seq!['.', ' ']),
            "video.mp4"@,
        ),
        None => "video.mp4"@,
    }
}

/// The name under which an imported video is kept (see `imported_asset_name`).
pub fn project_asset_file_name(hash: &str, source_name: Option<&str>) -> (r: String)
    ensures
        r@ == imported_asset_name(
            hash@,
            match source_name {
                Some(n) => Some(n@),
                None => None,
            },
        ),
{
    let name = match source_name {
        Some(n) => sanitize_file_name(n),
        None => "video.mp4".to_string(),
    };
    let mut out: Vec<char> = Vec::new();
    push_str(&mut out, hash);
    push_str(&mut out, "_");
    push_str(&mut out, name.as_str());
    string_from_chars(out)
}

// ---------------------------------------------------------------------------
// Deleting workspaces and files
// ---------------------------------------------------------------------------

/// A project id a deletion accepts: not empty and all ASCII digits.
pub open spec fn deletable_project_id(id: Seq<char>) -> bool {
    id.len() > 0 && forall|i: int| 0 <= i < id.len() ==> '0' <= #[trigger] id[i] && id[i] <= '9'
}

/// The project ids to delete: the trimmed ids that are all digits, each once,
/// in the order they first occur.
pub open spec fn requested_ids(ids: Seq<Seq<char>>) -> Seq<Seq<char>>
    decreases ids.len(),
{
    if ids.len() == 0 {
        seq![]
    } else {
        let r = requested_ids(ids.drop_last());
        let t = trim(ids.last());
        if deletable_project_id(t) && !r.contains(t) {
            r.push(t)
        } else {
            r
        }
    }
}

fn all_digits(s: &[char]) -> (r: bool)
    ensures
        r == deletable_project_id(s@),
{
    if s.len() == 0 {
        return false;
    }
    let mut i: usize = 0;
    while i < s.len()
        invariant
            i <= s@.len(),
            forall|k: int| 0 <= k < i ==> '0' <= #[trigger] s@[k] && s@[k] <= '9',
        decreases s@.len() - i,
    {
        if !('0' <= s[i] && s[i] <= '9') {
            return false;
        }
        i += 1;
    }
    true
}

/// The project ids a deletion asks for (see `requested_ids`).
pub fn requested_project_ids(ids: &Vec<String>) -> (r: Vec<String>)
    ensures
        string_views(r@) == requested_ids(string_views(ids@)),
{
    let ghost all = string_views(ids@);
    let mut r: Vec<String> = Vec::new();
    let mut i: usize = 0;
    assert(all.take(0) =~= Seq::<Seq<char>>::empty());
    while i < ids.len()
        invariant
            i <= ids@.len(),
            all == string_views(ids@),
            string_views(r@) == requested_ids(all.take(i as int)),
        decreases ids@.len() - i,
    {
        assert(all.take(i + 1).drop_last() =~= all.take(i as int));
        assert(all.take(i + 1).last() == ids@[i as int]@);
        let c = chars_of(ids[i].as_str());
        let (a, b) = crate::text::trim_range(&c, 0, c.len());
        assert(c@.subrange(0, c@.len() as int) =~= c@);
        let t = crate::text::copy_range(&c, a, b);
        if all_digits(&t) {
            let ghost rs = string_views(r@);
            let mut j: usize = 0;
            while j < r.len() && !crate::edit::chars_eq(&chars_of(r[j].as_str()), &t)
                invariant
                    j <= r@.len(),
                    rs == string_views(r@),
                    forall|k: int| 0 <= k < j ==> rs[k] != t@,
                decreases r@.len() - j,
            {
                j += 1;
            }
            if j == r.len() {
                assert(!rs.contains(t@)) by {
                    if rs.contains(t@) {
                        let k = choose|k: int| 0 <= k < rs.len() && rs[k] == t@;
                        assert(rs[k] != t@);
                    }
                }
                let ts = string_from_chars(t);
                r.push(ts);
                assert(string_views(r@) =~= rs.push(ts@));
            } else {
                assert(rs[j as int] == t@);
            }
        }
        i += 1;
    }
    assert(all.take(i as int) =~= all);
    r
}

/// The project id in a workspace directory name: the text after its last `-`.
pub open spec fn folder_project_id(folder: Seq<char>) -> Option<Seq<char>>
    decreases folder.len(),
{
    if folder.len() == 0 {
        None
    } else if folder.last() == '-' {
        Some(seq![])
    } else {
        match folder_project_id(folder.drop_last()) {
            Some(x) => Some(x.push(folder.last())),
            None => None,
        }
    }
}

/// Whether the workspace directory `folder` belongs to one of the projects to
/// delete (see `folder_project_id`).
pub fn workspace_folder_selected(folder: &str, ids: &Vec<String>) -> (r: bool)
    ensures
        r == (folder_project_id(folder@) matches Some(id) && string_views(ids@).contains(id)),
{
    let f = chars_of(folder);
    let mut i = f.len();
    assert(f@.take(f@.len() as int) =~= f@);
    while i > 0 && f[i - 1] != '-'
        invariant
            i <= f@.len(),
            folder_project_id(f@) == match folder_project_id(f@.take(i as int)) {
                Some(x) => Some(x + f@.skip(i as int)),
                None => None,
            },
        decreases i,
    {
        assert(f@.take(i as int).drop_last() =~= f@.take(i - 1));
        assert(f@.take(i as int).last() == f@[i - 1]);
        proof {
            if let Some(x) = folder_project_id(f@.take(i - 1)) {
                assert(x.push(f@[i - 1]) + f@.skip(i as int) =~= x + f@.skip(i - 1));
            }
        }
        i -= 1;
    }
    if i == 0 {
        assert(f@.take(0) =~= Seq::<char>::empty());
        return false;
    }
    assert(f@.take(i as int).last() == f@[i - 1]);
    assert(Seq::<char>::empty() + f@.skip(i as int) =~= f@.skip(i as int));
    let id = crate::text::copy_range(&f, i, f.len());
    assert(id@ =~= f@.skip(i as int));
    let ghost vs = string_views(ids@);
    let mut j: usize = 0;
    while j < ids.len()
        invariant
            j <= ids@.len(),
            vs == string_views(ids@),
            folder_project_id(folder@) == Some(id@),
            forall|k: int| 0 <= k < j ==> vs[k] != id@,
        decreases ids@.len() - j,
    {
        if crate::edit::chars_eq(&chars_of(ids[j].as_str()), &id) {
            assert(vs[j as int] == id@);
            assert(vs.contains(id@));
            return true;
        }
        j += 1;
    }
    assert(folder_project_id(f@) == Some(id@));
    assert(!vs.contains(id@)) by {
        if vs.contains(id@) {
            let k = choose|k: int| 0 <= k < vs.len() && vs[k] == id@;
            assert(vs[k] != id@);
        }
    }
    false
}

/// An asset file is still used: one of the ways the project may record its
/// path (see `asset_path_candidates`) is among the recorded file paths.
pub open spec fn still_referenced(
    project_dir: Seq<char>,
    asset_path: Seq<char>,
    referenced: Seq<Seq<char>>,
    style: PathStyle,
) -> bool {
    exists|i: int|
        0 <= i < asset_path_candidates(asset_path, project_dir, style).len() && referenced.contains(
            #[trigger] asset_path_candidates(asset_path, project_dir, style)[i],
        )
}

/// Whether the asset file at `asset_path` is still used by the project, given
/// the file paths the project records (see `still_referenced`).
pub fn asset_file_still_referenced(
    project_dir: &str,
    asset_path: &str,
    referenced: &Vec<String>,
    style: PathStyle,
) -> (r: bool)
    ensures
        r == still_referenced(project_dir@, asset_path@, string_views(referenced@), style),
{
    let candidates = crate::resource::project_filepath_candidates_from_asset_path(
        project_dir,
        asset_path,
        style,
    );
    let ghost cs = asset_path_candidates(asset_path@, project_dir@, style);
    let ghost rs = string_views(referenced@);
    let mut i: usize = 0;
    while i < candidates.len()
        invariant
            i <= candidates@.len(),
            candidates@.map_values(|x: String| x@) == cs,
            cs == asset_path_candidates(asset_path@, project_dir@, style),
            rs == string_views(referenced@),
            forall|k: int| 0 <= k < i ==> !rs.contains(#[trigger] cs[k]),
        decreases candidates@.len() - i,
    {
        assert(cs[i as int] == candidates@[i as int]@);
        let c = chars_of(candidates[i].as_str());
        let mut j: usize = 0;
        while j < referenced.len()
            invariant
                j <= referenced@.len(),
                rs == string_views(referenced@),
                cs == asset_path_candidates(asset_path@, project_dir@, style),
                i < cs.len(),
                c@ == cs[i as int],
                forall|k: int| 0 <= k < j ==> rs[k] != cs[i as int],
            decreases referenced@.len() - j,
        {
            if crate::edit::chars_eq(&chars_of(referenced[j].as_str()), &c) {
                assert(rs[j as int] == cs[i as int]);
                assert(rs.contains(cs[i as int]));
                assert(string_views(referenced@).contains(
                    asset_path_candidates(asset_path@, project_dir@, style)[i as int],
                ));
                return true;
            }
            j += 1;
        }
        assert(!rs.contains(cs[i as int])) by {
            if rs.contains(cs[i as int]) {
                let k = choose|k: int| 0 <= k < rs.len() && rs[k] == cs[i as int];
                assert(rs[k] != cs[i as int]);
            }
        }
        i += 1;
    }
    false
}

/// The assets of a project template that name a file: each `<asset>` with both
/// an `id` and a `filepath`, as (id, filepath).
pub open spec fn assets_with_files(tags: Seq<Seq<char>>) -> Seq<(Seq<char>, Seq<char>)>
    decreases tags.len(),
{
    if tags.len() == 0 {
        seq![]
    } else {
        let rest = assets_with_files(tags.drop_last());
        match (attr_value(tags.last(), "id"@), attr_value(tags.last(), "filepath"@)) {
            (Some(id), Some(f)) => rest.push((id, f)),
            _ => rest,
        }
    }
}

/// The assets of `template_xml` with their file paths (see
/// `assets_with_files`); the caller keeps those whose file exists.
pub fn asset_ids_with_filepaths(template_xml: &str) -> (r: Vec<(String, String)>)
    ensures
        r@.map_values(|x: (String, String)| (x.0@, x.1@)) == assets_with_files(
            start_tags(template_xml@, "asset"@),
        ),
{
    let xml = chars_of(template_xml);
    let tags = start_tags_chars(&xml, &chars_of("asset"));
    let ghost ts = char_views(tags@);
    let id_name = chars_of("id");
    let path_name = chars_of("filepath");
    proof {
        reveal_strlit("id");
        reveal_strlit("filepath");
    }
    assert(id_name@.len() > 0 && path_name@.len() > 0);
    let mut r: Vec<(String, String)> = Vec::new();
    let mut i: usize = 0;
    assert(ts.take(0) =~= Seq::<Seq<char>>::empty());
    while i < tags.len()
        invariant
            i <= tags@.len(),
            ts == char_views(tags@),
            id_name@ == "id"@,
            path_name@ == "filepath"@,
            id_name@.len() > 0,
            path_name@.len() > 0,
            r@.map_values(|x: (String, String)| (x.0@, x.1@)) == assets_with_files(
                ts.take(i as int),
            ),
        decreases tags@.len() - i,
    {
        assert(ts.take(i + 1).drop_last() =~= ts.take(i as int));
        assert(ts.take(i + 1).last() == tags@[i as int]@);
        let id = attr_value_chars(&tags[i], &id_name);
        let f = attr_value_chars(&tags[i], &path_name);
        match (id, f) {
            (Some(a), Some(b)) => {
                let ghost old_r = r@;
                let sa = string_from_chars(a);
                let sb = string_from_chars(b);
                r.push((sa, sb));
                assert(r@.map_values(|x: (String, String)| (x.0@, x.1@)) =~= old_r.map_values(
                    |x: (String, String)| (x.0@, x.1@),
                ).push((sa@, sb@)));
            },
            _ => {},
        }
        i += 1;
    }
    assert(ts.take(i as int) =~= ts);
    r
}

// ---------------------------------------------------------------------------
// Free names for a downloaded manual
// ---------------------------------------------------------------------------

/// The name to try as the `index`-th alternative to `requested` when a file of
/// that name exists: the stem of its file name, ` (index)`, then `.` and the
/// extension when it has a non-empty one.  A name without a file name (empty,
/// `.` or `..`) has the stem `AICut使用手册`.
pub open spec fn numbered_name(requested: Seq<char>, index: u64, style: PathStyle) -> Seq<char> {
    let n = file_name(requested, style);
    let none = n.len() == 0 || n == "."@;
    let stem = if none {
        "AICut使用手册"@
    } else {
        match last_dot(n, n.len() as int) {
            Some(d) => n.take(d),
            None => n,
        }
    };
    let ext = if none {
        seq![]
    } else {
        match last_dot(n, n.len() as int) {
            Some(d) => n.skip(d + 1),
            None => seq![],
        }
    };
    stem + " ("@ + decimal(index as nat) + ")"@ + if ext.len() > 0 {
        "."@ + ext
    } else {
        seq![]
    }
}

/// The `index`-th alternative name for a download (see `numbered_name`).
pub fn numbered_download_name(requested: &str, index: u64, style: PathStyle) -> (r: String)
    ensures
        r@ == numbered_name(requested@, index, style),
{
    let rc = chars_of(requested);
    let n = crate::resource::file_name_chars(&rc, style);
    let dot = vec!['.'];
    proof {
        reveal_strlit(".");
    }
    assert(dot@ =~= "."@);
    let none = n.len() == 0 || crate::edit::chars_eq(&n, &dot);
    let mut out: Vec<char> = Vec::new();
    let mut ext: Vec<char> = Vec::new();
    if none {
        push_str(&mut out, "AICut使用手册");
    } else {
        let mut i = n.len();
        while i > 0 && !(n[i - 1] == '.' && i - 1 > 0)
            invariant
                i <= n@.len(),
                last_dot(n@, n@.len() as int) == last_dot(n@, i as int),
            decreases i,
        {
            i -= 1;
        }
        if i == 0 {
            push_all(&mut out, &n);
        } else {
            let d = i - 1;
            let stem = crate::text::copy_range(&n, 0, d);
            assert(stem@ =~= n@.take(d as int));
            push_all(&mut out, &stem);
            ext = crate::text::copy_range(&n, d + 1, n.len());
            assert(ext@ =~= n@.skip(d + 1));
        }
    }
    push_str(&mut out, " (");
    push_u64(&mut out, index);
    push_str(&mut out, ")");
    if ext.len() > 0 {
        push_str(&mut out, ".");
        push_all(&mut out, &ext);
    }
    string_from_chars(out)
}

// ---------------------------------------------------------------------------
// Copying a project
// ---------------------------------------------------------------------------

/// The trimmed template id, new project id and new project name, or the error
/// when any of them is blank.
pub fn check_clone_request(template_id: &str, new_project_id: &str, new_project_name: &str) -> (r:
    Result<(String, String, String), String>)
    ensures
        (trim(template_id@).len() > 0 && trim(new_project_id@).len() > 0 && trim(
            new_project_name@,
        ).len() > 0) ==> (r matches Ok((a, b, c)) && a@ == trim(template_id@) && b@ == trim(
            new_project_id@,
        ) && c@ == trim(new_project_name@)),
        !(trim(template_id@).len() > 0 && trim(new_project_id@).len() > 0 && trim(
            new_project_name@,
        ).len() > 0) ==> (r matches Err(m) && m@ == "新工程 ID、名称或模板 ID 不能为空"@),
{
    let a = check_asset_id(template_id);
    let b = check_asset_id(new_project_id);
    let c = check_asset_id(new_project_name);
    match (a, b, c) {
        (Ok(x), Ok(y), Ok(z)) => Ok((x, y, z)),
        _ => Err("新工程 ID、名称或模板 ID 不能为空".to_string()),
    }
}

/// `xml` without generated paths (see `clear_project_generatepaths`), or the
/// error for an unclosed `<generatepath>`.
pub open spec fn cleared_generatepaths(xml: Seq<char>) -> Result<Seq<char>, Seq<char>> {
    match remove_elements(xml, generatepath_name(), 0) {
        Some(y) => Ok(
            rewrite_from(
                y,
                open_pat(asset_name()),
                0,
                EditKind::RemoveAttr,
                id_name(),
                seq![],
                generatepath_name(),
                seq![],
            ),
        ),
        None => Err(unclosed_message(generatepath_name())),
    }
}

/// The project file with its root given a new id and name (see
/// `update_project_root_identity`), or the error.
pub open spec fn renamed_root(xml: Seq<char>, id: Seq<char>, name: Seq<char>) -> Result<
    Seq<char>,
    Seq<char>,
> {
    match with_root_identity(xml, id, name) {
        Some(x) => Ok(x),
        None => Err(
            if tag_candidate(xml, open_pat(project_tag_name()), 0) is None {
                "projectFile.xml 缺少 project 节点"@
            } else {
                "projectFile.xml 中的 project 节点未正确闭合"@
            },
        ),
    }
}

/// The two files of a copied project: the template and the project file
/// without generated paths, the project file's root given the new workspace
/// id and name; the first error met otherwise.
pub open spec fn cloned_files(
    template_xml: Seq<char>,
    project_file_xml: Seq<char>,
    workspace_id: Seq<char>,
    name: Seq<char>,
) -> Result<(Seq<char>, Seq<char>), Seq<char>> {
    match cleared_generatepaths(template_xml) {
        Err(m) => Err(m),
        Ok(t) => match cleared_generatepaths(project_file_xml) {
            Err(m) => Err(m),
            Ok(p) => match renamed_root(p, workspace_id, name) {
                Err(m) => Err(m),
                Ok(q) => Ok((t, q)),
            },
        },
    }
}

/// The files of a project copied into the workspace `workspace_id` under the
/// name `name` (see `cloned_files`).
pub fn cloned_project_files(
    template_xml: &str,
    project_file_xml: &str,
    workspace_id: &str,
    name: &str,
) -> (r: Result<(String, String), String>)
    ensures
        match cloned_files(template_xml@, project_file_xml@, workspace_id@, name@) {
            Ok((t, p)) => r matches Ok((a, b)) && a@ == t && b@ == p,
            Err(m) => r matches Err(x) && x@ == m,
        },
{
    let t = match clear_project_generatepaths(template_xml) {
        Ok(t) => t,
        Err(m) => {
            return Err(m);
        },
    };
    let p = match clear_project_generatepaths(project_file_xml) {
        Ok(p) => p,
        Err(m) => {
            return Err(m);
        },
    };
    let q = match update_project_root_identity(p.as_str(), workspace_id, name) {
        Ok(q) => q,
        Err(m) => {
            return Err(m);
        },
    };
    Ok((t, q))
}

} // verus!
