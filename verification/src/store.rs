//! The editor's own templates: which keys are accepted, the order in which
//! they are listed, what goes into the upload archive and how uploads are cut
//! into chunks.

use vstd::prelude::*;
use crate::paths::{key_char, map_chars, or_default, sanitize_custom_template_key};
use crate::props::{ascii_lower_eq, ascii_lower_eq_exec};
use crate::resource::{file_name, PathStyle};
use crate::text::{chars_of, parse_u64_spec, string_from_chars, to_lowercase, trim, unicode_lowercase};
use crate::edit::chars_eq;
use crate::custom::{
    custom_template_name, custom_template_video_details, element_text, template_name, video_inner,
};
use crate::template::{format_timestamp, local_time_text};

verus! {

broadcast use vstd::string::group_string_axioms;

// ---------------------------------------------------------------------------
// Keys
// ---------------------------------------------------------------------------

/// The directory key of a template id: the trimmed id sanitised.
pub open spec fn template_key(template_id: Seq<char>) -> Seq<char> {
    or_default(map_chars(trim(template_id), |c: char| key_char(c)), "template"@)
}

/// The key is the reserved `temp` directory (ASCII case ignored).
pub open spec fn is_temp_key(key: Seq<char>) -> bool {
    ascii_lower_eq(key, "temp"@)
}

/// What saving a template needs: a non-blank id, a non-blank XML text and an id
/// whose key is not `temp`.  The key when they hold.
pub open spec fn save_check(template_id: Seq<char>, template_xml: Seq<char>) -> Result<
    Seq<char>,
    Seq<char>,
> {
    if trim(template_id).len() == 0 {
        Err("templateId 不能为空"@)
    } else if trim(template_xml).len() == 0 {
        Err("模板 XML 不能为空"@)
    } else if is_temp_key(template_key(template_id)) {
        Err("templateId 不能为 temp"@)
    } else {
        Ok(template_key(template_id))
    }
}

fn trimmed(s: &str) -> (r: String)
    ensures
        r@ == trim(s@),
{
    let c = chars_of(s);
    let (a, b) = crate::text::trim_range(&c, 0, c.len());
    assert(c@.subrange(0, c@.len() as int) =~= c@);
    string_from_chars(crate::text::copy_range(&c, a, b))
}

/// Checks a template before it is saved (see `save_check`); its key when it
/// passes.
pub fn check_custom_template_save(template_id: &str, template_xml: &str) -> (r: Result<
    String,
    String,
>)
    ensures
        match save_check(template_id@, template_xml@) {
            Ok(k) => r matches Ok(x) && x@ == k,
            Err(m) => r matches Err(x) && x@ == m,
        },
{
    let id = trimmed(template_id);
    if id.as_str().as_bytes().len() == 0 {
        proof {
            if id@.len() > 0 {
                vstd::utf8::encode_utf8_first_scalar(id@);
            }
        }
        return Err("templateId 不能为空".to_string());
    }
    let xml = trimmed(template_xml);
    if xml.as_str().as_bytes().len() == 0 {
        proof {
            if xml@.len() > 0 {
                vstd::utf8::encode_utf8_first_scalar(xml@);
            }
        }
        return Err("模板 XML 不能为空".to_string());
    }
    proof {
        assert(id@.len() > 0) by {
            if id@.len() == 0 {
                assert(vstd::utf8::encode_utf8(id@) =~= Seq::<u8>::empty());
            }
        }
        assert(xml@.len() > 0) by {
            if xml@.len() == 0 {
                assert(vstd::utf8::encode_utf8(xml@) =~= Seq::<u8>::empty());
            }
        }
    }
    let key = sanitize_custom_template_key(id.as_str());
    if ascii_lower_eq_exec(&chars_of(key.as_str()), &chars_of("temp")) {
        return Err("templateId 不能为 temp".to_string());
    }
    Ok(key)
}

/// What reading a template needs: a non-blank id whose key is not `temp`.  The
/// trimmed id and the key when they hold.
pub open spec fn read_check(template_id: Seq<char>) -> Result<(Seq<char>, Seq<char>), Seq<char>> {
    if trim(template_id).len() == 0 {
        Err("templateId 不能为空"@)
    } else if is_temp_key(template_key(template_id)) {
        Err("不能读取临时模板目录"@)
    } else {
        Ok((trim(template_id), template_key(template_id)))
    }
}

/// Checks a template id before the template is read (see `read_check`).
pub fn check_custom_template_read(template_id: &str) -> (r: Result<(String, String), String>)
    ensures
        match read_check(template_id@) {
            Ok((t, k)) => r matches Ok((a, b)) && a@ == t && b@ == k,
            Err(m) => r matches Err(x) && x@ == m,
        },
{
    let id = trimmed(template_id);
    let ic = chars_of(id.as_str());
    if ic.len() == 0 {
        return Err("templateId 不能为空".to_string());
    }
    let key = sanitize_custom_template_key(id.as_str());
    if ascii_lower_eq_exec(&chars_of(key.as_str()), &chars_of("temp")) {
        return Err("不能读取临时模板目录".to_string());
    }
    Ok((id, key))
}

/// The names the storage keeps for itself (ASCII case ignored): `project`,
/// `preview`, `prTemp` and `temp`; any other directory holding a template is a
/// template left from before and moves into `project`.
pub open spec fn is_reserved_storage_dir(name: Seq<char>) -> bool {
    ascii_lower_eq(name, "project"@) || ascii_lower_eq(name, "preview"@) || ascii_lower_eq(
        name,
        "prtemp"@,
    ) || ascii_lower_eq(name, "temp"@)
}

/// Whether `name` is one of the storage's own directories (see
/// `is_reserved_storage_dir`).
pub fn is_reserved_storage_directory(name: &str) -> (r: bool)
    ensures
        r == is_reserved_storage_dir(name@),
{
    let n = chars_of(name);
    ascii_lower_eq_exec(&n, &chars_of("project")) || ascii_lower_eq_exec(&n, &chars_of("preview"))
        || ascii_lower_eq_exec(&n, &chars_of("prtemp")) || ascii_lower_eq_exec(
        &n,
        &chars_of("temp"),
    )
}

// ---------------------------------------------------------------------------
// Listing
// ---------------------------------------------------------------------------

/// A template as the list of the editor's own templates shows it.
pub struct CustomTemplateSummary {
    pub template_id: String,
    pub backend_template_id: Option<String>,
    pub status: u8,
    pub submission_ready: bool,
    pub name: String,
    pub duration_ms: u64,
    pub resolution: String,
    pub preview_path: String,
    pub updated_at: String,
}

/// The list entry of the custom template `template_id` whose file holds
/// `xml_content`: its name (the id when the file names none), its video's
/// duration and resolution, and the local time of `updated_ms` (milliseconds
/// since the epoch) as its update time.  Which date and time the text shows
/// depends on the machine's time zone (and on the clock when `updated_ms` is out
/// of range); only its `YYYY-MM-DD hh:mm:ss` shape is stated.
pub fn custom_template_summary(
    template_id: String,
    xml_content: &str,
    backend_template_id: Option<String>,
    status: u8,
    submission_ready: bool,
    preview_path: String,
    updated_ms: u128,
) -> (r: CustomTemplateSummary)
    ensures
        r.template_id == template_id,
        r.backend_template_id == backend_template_id,
        r.status == status,
        r.submission_ready == submission_ready,
        r.name@ == template_name(xml_content@, template_id@),
        r.duration_ms == match parse_u64_spec(element_text(video_inner(xml_content@), "duration"@)) {
            Some(n) => n,
            None => 0,
        },
        r.resolution@ == element_text(video_inner(xml_content@), "resolution"@),
        r.preview_path == preview_path,
        local_time_text(r.updated_at@),
{
    let name = custom_template_name(xml_content, template_id.as_str());
    let (duration_ms, resolution, _demo) = custom_template_video_details(xml_content);
    CustomTemplateSummary {
        template_id,
        backend_template_id,
        status,
        submission_ready,
        name,
        duration_ms,
        resolution,
        preview_path,
        updated_at: format_timestamp(updated_ms),
    }
}

// ---------------------------------------------------------------------------
// Assets copied into a saved template
// ---------------------------------------------------------------------------

/// The (name key, source) pairs of the assets copied so far.
pub open spec fn copied_views(v: Seq<(String, String)>) -> Seq<(Seq<char>, Seq<char>)> {
    v.map_values(|p: (String, String)| (p.0@, p.1@))
}

/// The first position from `i` on whose name key is `key`.
pub open spec fn key_index(c: Seq<(Seq<char>, Seq<char>)>, key: Seq<char>, i: int) -> Option<int>
    decreases c.len() - i,
{
    if i < 0 || i >= c.len() {
        None
    } else if c[i].0 == key {
        Some(i)
    } else {
        key_index(c, key, i + 1)
    }
}

pub proof fn lemma_key_index(c: Seq<(Seq<char>, Seq<char>)>, key: Seq<char>, i: int)
    requires
        0 <= i <= c.len(),
    ensures
        key_index(c, key, i) matches Some(k) ==> i <= k < c.len() && c[k].0 == key,
        key_index(c, key, i) is None ==> forall|k: int| i <= k < c.len() ==> c[k].0 != key,
    decreases c.len() - i,
{
    if i < c.len() && c[i].0 != key {
        lemma_key_index(c, key, i + 1);
    }
}

/// Saving a template copies its asset files into one directory, so two files
/// whose names are equal in lowercase cannot both go there.  For the file
/// `file_name` at `source`: `Ok(true)` when no file of that name was copied yet
/// (it is then remembered under its lowercase name), `Ok(false)` when the same
/// source was already copied, and an error when another source with that name
/// was.
pub fn remember_template_asset(copied: &mut Vec<(String, String)>, file_name: &str, source: &str) -> (r:
    Result<bool, String>)
    ensures
        ({
            let key = unicode_lowercase(file_name@);
            match key_index(copied_views(old(copied)@), key, 0) {
                Some(k) => {
                    &&& final(copied)@ == old(copied)@
                    &&& if copied_views(old(copied)@)[k].1 == source@ {
                        r == Ok::<bool, String>(false)
                    } else {
                        r matches Err(m) && m@ == "存在两个同名模板素材，无法保存："@ + file_name@
                    }
                },
                None => {
                    &&& r == Ok::<bool, String>(true)
                    &&& copied_views(final(copied)@) == copied_views(old(copied)@).push(
                        (key, source@),
                    )
                },
            }
        }),
{
    let key = to_lowercase(file_name);
    let kc = chars_of(key.as_str());
    let sc = chars_of(source);
    let ghost c = copied_views(copied@);
    proof {
        lemma_key_index(c, key@, 0);
    }
    let mut j: usize = 0;
    while j < copied.len()
        invariant
            j <= copied@.len(),
            c == copied_views(copied@),
            copied@ == old(copied)@,
            kc@ == key@,
            sc@ == source@,
            key@ == unicode_lowercase(file_name@),
            key_index(c, key@, 0) == key_index(c, key@, j as int),
        decreases copied@.len() - j,
    {
        assert(c[j as int] == (copied@[j as int].0@, copied@[j as int].1@));
        if chars_eq(&chars_of(copied[j].0.as_str()), &kc) {
            assert(key_index(c, key@, j as int) == Some(j as int));
            if chars_eq(&chars_of(copied[j].1.as_str()), &sc) {
                return Ok(false);
            }
            let mut m = chars_of("存在两个同名模板素材，无法保存：");
            let n = chars_of(file_name);
            let mut t: usize = 0;
            let ghost m0 = m@;
            while t < n.len()
                invariant
                    t <= n@.len(),
                    m@ == m0 + n@.take(t as int),
                decreases n@.len() - t,
            {
                m.push(n[t]);
                t += 1;
                assert(m@ =~= m0 + n@.take(t as int));
            }
            assert(n@.take(n@.len() as int) =~= n@);
            return Err(string_from_chars(m));
        }
        j += 1;
    }
    copied.push((key, source.to_string()));
    assert(copied_views(copied@) =~= c.push((key@, source@)));
    Ok(true)
}

/// `a` comes before `b` in the order of characters (that of the UTF-8 bytes).
pub open spec fn lex_less(a: Seq<char>, b: Seq<char>) -> bool
    decreases a.len(),
{
    if b.len() == 0 {
        false
    } else if a.len() == 0 {
        true
    } else if a[0] != b[0] {
        a[0] < b[0]
    } else {
        lex_less(a.drop_first(), b.drop_first())
    }
}

/// The first position at or after `i` whose template was updated before `key`.
pub open spec fn first_older(s: Seq<CustomTemplateSummary>, key: Seq<char>, i: int) -> int
    decreases s.len() - i,
{
    if i < 0 || i >= s.len() {
        s.len() as int
    } else if lex_less(s[i].updated_at@, key) {
        i
    } else {
        first_older(s, key, i + 1)
    }
}

/// `t` put into the newest-first list `s` after every template updated at the
/// same time or later.
pub open spec fn insert_by_update(s: Seq<CustomTemplateSummary>, t: CustomTemplateSummary) -> Seq<
    CustomTemplateSummary,
> {
    s.insert(first_older(s, t.updated_at@, 0), t)
}

/// `s` ordered newest first by its update time text; templates with the same
/// time keep their order.
pub open spec fn sorted_by_update(s: Seq<CustomTemplateSummary>) -> Seq<CustomTemplateSummary>
    decreases s.len(),
{
    if s.len() == 0 {
        s
    } else {
        insert_by_update(sorted_by_update(s.drop_last()), s.last())
    }
}

pub proof fn lemma_first_older(s: Seq<CustomTemplateSummary>, key: Seq<char>, i: int)
    requires
        0 <= i <= s.len(),
    ensures
        i <= first_older(s, key, i) <= s.len(),
        forall|j: int| i <= j < first_older(s, key, i) ==> !lex_less(#[trigger] s[j].updated_at@, key),
        first_older(s, key, i) < s.len() ==> lex_less(s[first_older(s, key, i)].updated_at@, key),
    decreases s.len() - i,
{
    if i < s.len() && !lex_less(s[i].updated_at@, key) {
        lemma_first_older(s, key, i + 1);
    }
}

fn lex_less_exec(a: &[char], b: &[char]) -> (r: bool)
    ensures
        r == lex_less(a@, b@),
{
    let mut i: usize = 0;
    assert(a@.skip(0) =~= a@ && b@.skip(0) =~= b@);
    while i < a.len() && i < b.len() && a[i] == b[i]
        invariant
            i <= a@.len(),
            i <= b@.len(),
            lex_less(a@, b@) == lex_less(a@.skip(i as int), b@.skip(i as int)),
        decreases a@.len() - i,
    {
        assert(a@.skip(i as int).drop_first() =~= a@.skip(i + 1));
        assert(b@.skip(i as int).drop_first() =~= b@.skip(i + 1));
        i += 1;
    }
    if i == b.len() {
        false
    } else if i == a.len() {
        true
    } else {
        a[i] < b[i]
    }
}

/// The templates newest first (see `sorted_by_update`).
pub fn sort_custom_templates_by_update(templates: Vec<CustomTemplateSummary>) -> (r: Vec<
    CustomTemplateSummary,
>)
    ensures
        r@ == sorted_by_update(templates@),
{
    let ghost all = templates@;
    let n = templates.len();
    let mut rest = templates;
    let mut out: Vec<CustomTemplateSummary> = Vec::new();
    let mut k: usize = 0;
    assert(all.take(0) =~= Seq::<CustomTemplateSummary>::empty());
    while rest.len() > 0
        invariant
            k <= all.len(),
            all.len() == n,
            rest@ == all.skip(k as int),
            out@ == sorted_by_update(all.take(k as int)),
        decreases rest@.len(),
    {
        let t = rest.remove(0);
        assert(t == all[k as int]);
        let key = chars_of(t.updated_at.as_str());
        let mut p: usize = 0;
        proof {
            lemma_first_older(out@, key@, 0);
        }
        while p < out.len() && !lex_less_exec(&chars_of(out[p].updated_at.as_str()), &key)
            invariant
                p <= out@.len(),
                first_older(out@, key@, 0) == first_older(out@, key@, p as int),
            decreases out@.len() - p,
        {
            p += 1;
        }
        out.insert(p, t);
        proof {
            assert(all.take(k + 1).drop_last() =~= all.take(k as int));
            assert(all.take(k + 1).last() == t);
        }
        k += 1;
        assert(rest@ =~= all.skip(k as int));
    }
    assert(all.take(k as int) =~= all);
    out
}

// ---------------------------------------------------------------------------
// Upload
// ---------------------------------------------------------------------------

/// The name under which the asset at `relative` (a path inside the assets
/// directory) goes into the upload archive, with `/` separators; none for the
/// old cover `cover.png`, the editor's fixed layer `tmptop.mov` and the cut
/// `top-segment-*.mov` pieces (file names compared in any ASCII case).
pub open spec fn upload_archive_name(relative: Seq<char>, style: PathStyle) -> Option<Seq<char>> {
    let name = file_name(relative, style);
    if relative == "cover.png"@ {
        None
    } else if ascii_lower_eq(name, "tmptop.mov"@) || (crate::misc::lower_prefix(
        name,
        "top-segment-"@,
    ) && name.len() >= 4 && ascii_lower_eq(name.skip(name.len() - 4), ".mov"@)) {
        None
    } else {
        Some(crate::paths::forward_slashes(relative))
    }
}

/// The archive name of an asset, or none when it is left out of the upload
/// (see `upload_archive_name`).
pub fn upload_asset_archive_name(relative: &str, style: PathStyle) -> (r: Option<String>)
    ensures
        match upload_archive_name(relative@, style) {
            Some(n) => r matches Some(x) && x@ == n,
            None => r is None,
        },
{
    let rc = chars_of(relative);
    if crate::edit::chars_eq(&rc, &chars_of("cover.png")) {
        return None;
    }
    let name = crate::resource::file_name_chars(&rc, style);
    let skip_top = ascii_lower_eq_exec(&name, &chars_of("tmptop.mov"));
    let segment = crate::misc::lower_prefix_exec(&name, "top-segment-") && name.len() >= 4 && {
        let tail = crate::text::copy_range(&name, name.len() - 4, name.len());
        assert(tail@ =~= name@.skip(name@.len() - 4));
        ascii_lower_eq_exec(&tail, &chars_of(".mov"))
    };
    if skip_top || segment {
        return None;
    }
    let out = crate::paths::forward_slashes_exec(&rc, 0, rc.len());
    assert(rc@.subrange(0, rc@.len() as int) =~= rc@);
    Some(string_from_chars(out))
}

/// The largest upload chunk, in bytes (20 MiB).
pub const MAX_UPLOAD_CHUNK_BYTES: u64 = 20971520;

/// The file of an upload part: the upload XML, the cover or the assets archive.
pub open spec fn upload_part_file(file_type: Seq<char>) -> Option<Seq<char>> {
    if file_type == "xml"@ {
        Some(".upload-template.xml"@)
    } else if file_type == "cover"@ {
        Some("cover.png"@)
    } else if file_type == "assets"@ {
        Some("assets.zip"@)
    } else {
        None
    }
}

/// The file of an upload part (see `upload_part_file`), or the error for an
/// unknown part.
pub fn upload_part_file_name(file_type: &str) -> (r: Result<&'static str, String>)
    ensures
        match upload_part_file(file_type@) {
            Some(n) => r matches Ok(x) && x@ == n,
            None => r matches Err(m) && m@ == "上传文件类型无效"@,
        },
{
    let t = chars_of(file_type);
    if crate::edit::chars_eq(&t, &chars_of("xml")) {
        Ok(".upload-template.xml")
    } else if crate::edit::chars_eq(&t, &chars_of("cover")) {
        Ok("cover.png")
    } else if crate::edit::chars_eq(&t, &chars_of("assets")) {
        Ok("assets.zip")
    } else {
        Err("上传文件类型无效".to_string())
    }
}

/// Whether `chunk_size` is a usable chunk size: positive and at most 20 MiB.
pub fn check_upload_chunk_size(chunk_size: u64) -> (r: Result<(), String>)
    ensures
        (0 < chunk_size <= MAX_UPLOAD_CHUNK_BYTES) ==> r is Ok,
        !(0 < chunk_size <= MAX_UPLOAD_CHUNK_BYTES) ==> (r matches Err(m) && m@ == "上传分片大小无效"@),
{
    if chunk_size == 0 || chunk_size > MAX_UPLOAD_CHUNK_BYTES {
        return Err("上传分片大小无效".to_string());
    }
    Ok(())
}

/// The bytes of chunk `chunk_index` of `chunk_size` bytes in a file of
/// `file_size` bytes: its start and length.  An error when the start does not
/// fit in 64 bits or lies at or past the end of the file.
pub open spec fn chunk_range(chunk_index: u64, chunk_size: u64, file_size: u64) -> Result<
    (u64, u64),
    Seq<char>,
> {
    let start = chunk_index * chunk_size;
    if start > u64::MAX {
        Err("上传分片序号无效"@)
    } else if start >= file_size {
        Err("上传分片超出文件范围"@)
    } else {
        let rest = file_size - start;
        Ok((start as u64, if rest < chunk_size { rest as u64 } else { chunk_size }))
    }
}

/// Where chunk `chunk_index` lies in the file (see `chunk_range`).
pub fn upload_chunk_range(chunk_index: u64, chunk_size: u64, file_size: u64) -> (r: Result<
    (u64, u64),
    String,
>)
    ensures
        match chunk_range(chunk_index, chunk_size, file_size) {
            Ok(x) => r matches Ok(y) && y == x,
            Err(m) => r matches Err(x) && x@ == m,
        },
{
    let start = match chunk_index.checked_mul(chunk_size) {
        Some(s) => s,
        None => {
            return Err("上传分片序号无效".to_string());
        },
    };
    if start >= file_size {
        return Err("上传分片超出文件范围".to_string());
    }
    let rest = file_size - start;
    Ok((start, if rest < chunk_size { rest } else { chunk_size }))
}

} // verus!
