//! Small rules around the platform and the outside services: reading the
//! machine's hardware id, the messages for failed requests and compositions,
//! which entries of the runtime archive are installed, and which colour
//! lookup tables may be loaded.

use vstd::prelude::*;
use crate::bridge::{ascii_lower, lines_from};
use crate::misc::composer_message;
use crate::paths::map_chars;
use crate::props::{ascii_lower_eq, ascii_lower_eq_exec};
use crate::resource::{is_sep, PathStyle};
use crate::scan::string_views;
use crate::text::{chars_of, copy_range, decimal, push_all, push_str, push_u64, string_from_chars, trim, trim_range};

verus! {

broadcast use vstd::string::group_string_axioms;

// ---------------------------------------------------------------------------
// The hardware id
// ---------------------------------------------------------------------------

/// The value of the first line of `lines` from `i` on that, trimmed, starts
/// with `Hardware UUID:`: the rest of that line, trimmed.
pub open spec fn uuid_line(lines: Seq<Seq<char>>, i: int) -> Option<Seq<char>>
    decreases lines.len() - i,
{
    if i < 0 || i >= lines.len() {
        None
    } else {
        let t = trim(lines[i]);
        if t.len() >= 14 && t.take(14) == "Hardware UUID:"@ {
            Some(trim(t.skip(14)))
        } else {
            uuid_line(lines, i + 1)
        }
    }
}

/// The hardware id in the system profile text, or the error when its first
/// `Hardware UUID:` line is missing or empty.
pub open spec fn hardware_uuid(profile: Seq<char>) -> Result<Seq<char>, Seq<char>> {
    match uuid_line(lines_from(profile, 0), 0) {
        Some(v) => if v.len() > 0 {
            Ok(v)
        } else {
            Err("Hardware UUID not found"@)
        },
        None => Err("Hardware UUID not found"@),
    }
}

/// The hardware id reported by the system profile (see `hardware_uuid`).
pub fn hardware_uuid_from_profile(profile: &str) -> (r: Result<String, String>)
    ensures
        match hardware_uuid(profile@) {
            Ok(v) => r matches Ok(x) && x@ == v,
            Err(m) => r matches Err(x) && x@ == m,
        },
{
    let p = chars_of(profile);
    let lines = crate::bridge::lines_chars(&p);
    let ghost ls = crate::scan::char_views(lines@);
    let prefix = chars_of("Hardware UUID:");
    proof {
        reveal_strlit("Hardware UUID:");
    }
    let mut i: usize = 0;
    while i < lines.len()
        invariant
            i <= lines@.len(),
            ls == crate::scan::char_views(lines@),
            ls == lines_from(profile@, 0),
            prefix@ == "Hardware UUID:"@,
            prefix@.len() == 14,
            uuid_line(ls, 0) == uuid_line(ls, i as int),
        decreases lines@.len() - i,
    {
        assert(ls[i as int] == lines@[i as int]@);
        let line = &lines[i];
        let (a, b) = trim_range(line, 0, line.len());
        assert(line@.subrange(0, line@.len() as int) =~= line@);
        let t = copy_range(line, a, b);
        if t.len() >= 14 {
            let head = copy_range(&t, 0, 14);
            assert(head@ =~= t@.take(14));
            if crate::edit::chars_eq(&head, &prefix) {
                let (c, d) = trim_range(&t, 14, t.len());
                assert(t@.subrange(14, t@.len() as int) =~= t@.skip(14));
                if c == d {
                    return Err("Hardware UUID not found".to_string());
                }
                return Ok(string_from_chars(copy_range(&t, c, d)));
            }
        }
        i += 1;
    }
    Err("Hardware UUID not found".to_string())
}

// ---------------------------------------------------------------------------
// Failed requests
// ---------------------------------------------------------------------------

/// The message for a failed network request to the object store: a timeout, a
/// failed connection, or any other failure.
pub fn bos_request_error_message(timed_out: bool, connect_failed: bool) -> (r: String)
    ensures
        r@ == if timed_out {
            "BOS request timed out"@
        } else if connect_failed {
            "BOS connection failed"@
        } else {
            "BOS network request failed"@
        },
{
    if timed_out {
        "BOS request timed out".to_string()
    } else if connect_failed {
        "BOS connection failed".to_string()
    } else {
        "BOS network request failed".to_string()
    }
}

/// The message for a manual download answered with the failure `status`.
pub open spec fn help_guide_failure(status: u16) -> Seq<char> {
    if status == 401 {
        "未登录或 Token 已失效"@
    } else if status == 404 {
        "当前登录端对应的使用手册尚未配置"@
    } else if status == 500 {
        "使用手册文件读取或下载异常"@
    } else {
        "指南下载失败（HTTP "@ + decimal(status as nat) + "）"@
    }
}

/// The message for a failed manual download (see `help_guide_failure`).
pub fn help_guide_failure_message(status: u16) -> (r: String)
    ensures
        r@ == help_guide_failure(status),
{
    if status == 401 {
        "未登录或 Token 已失效".to_string()
    } else if status == 404 {
        "当前登录端对应的使用手册尚未配置".to_string()
    } else if status == 500 {
        "使用手册文件读取或下载异常".to_string()
    } else {
        let mut out: Vec<char> = Vec::new();
        push_str(&mut out, "指南下载失败（HTTP ");
        push_u64(&mut out, status as u64);
        push_str(&mut out, "）");
        string_from_chars(out)
    }
}

/// The trimmed token for a manual download, or the error for a blank one.
pub fn check_help_guide_token(token: &str) -> (r: Result<String, String>)
    ensures
        trim(token@).len() > 0 ==> (r matches Ok(x) && x@ == trim(token@)),
        trim(token@).len() == 0 ==> (r matches Err(m) && m@ == "未登录或 Token 已失效"@),
{
    let c = chars_of(token);
    let (a, b) = trim_range(&c, 0, c.len());
    assert(c@.subrange(0, c@.len() as int) =~= c@);
    if a == b {
        return Err("未登录或 Token 已失效".to_string());
    }
    Ok(string_from_chars(copy_range(&c, a, b)))
}

/// The message for a failed composition with `code`: the code's message,
/// followed by `: ` and the composer's own last error when it reported one.
pub open spec fn composer_failure(code: i32, last_error: Seq<char>) -> Seq<char> {
    if trim(last_error).len() == 0 || last_error == "composer_get_last_error 函数未加载"@
        || last_error == "composer_get_last_error 返回空指针"@ {
        composer_message(code)
    } else {
        composer_message(code) + ": "@ + last_error
    }
}

/// The message for a failed composition (see `composer_failure`).
pub fn composer_failure_message(code: i32, last_error: &str) -> (r: String)
    ensures
        r@ == composer_failure(code, last_error@),
{
    let message = crate::misc::composer_error_message(code);
    let e = chars_of(last_error);
    let (a, b) = trim_range(&e, 0, e.len());
    assert(e@.subrange(0, e@.len() as int) =~= e@);
    if a == b || crate::edit::chars_eq(&e, &chars_of("composer_get_last_error 函数未加载"))
        || crate::edit::chars_eq(&e, &chars_of("composer_get_last_error 返回空指针")) {
        return message;
    }
    let mut out: Vec<char> = Vec::new();
    push_str(&mut out, message.as_str());
    push_str(&mut out, ": ");
    push_all(&mut out, &e);
    string_from_chars(out)
}

// ---------------------------------------------------------------------------
// The runtime archive
// ---------------------------------------------------------------------------

/// An entry of the runtime archive that is installed: a `.dll` (ASCII case
/// ignored) other than the composer library itself.
pub open spec fn runtime_dll_entry(name: Seq<char>) -> bool {
    name.len() >= 4 && ascii_lower_eq(name.skip(name.len() - 4), ".dll"@) && !ascii_lower_eq(
        name,
        "libcomposer.dll"@,
    )
}

/// Whether the archive entry `file_name` is installed (see
/// `runtime_dll_entry`).
pub fn is_runtime_dll_entry(file_name: &str) -> (r: bool)
    ensures
        r == runtime_dll_entry(file_name@),
{
    let n = chars_of(file_name);
    if n.len() < 4 {
        return false;
    }
    let tail = copy_range(&n, n.len() - 4, n.len());
    assert(tail@ =~= n@.skip(n@.len() - 4));
    ascii_lower_eq_exec(&tail, &chars_of(".dll")) && !ascii_lower_eq_exec(
        &n,
        &chars_of("libcomposer.dll"),
    )
}

/// Records the installed entry `file_name` among the names seen (kept in ASCII
/// lowercase); an error when a name equal in ASCII case was seen before.
pub fn remember_runtime_dll(seen: &mut Vec<String>, file_name: &str) -> (r: Result<(), String>)
    ensures
        ({
            let key = map_chars(file_name@, |c: char| ascii_lower(c));
            if string_views(old(seen)@).contains(key) {
                &&& r matches Err(m) && m@ == "压缩包内存在重名 DLL："@ + file_name@
                &&& final(seen)@ == old(seen)@
            } else {
                &&& r is Ok
                &&& string_views(final(seen)@) == string_views(old(seen)@).push(key)
            }
        }),
{
    let n = chars_of(file_name);
    let key = crate::bridge::lower_chars(&n);
    let ghost ks = string_views(seen@);
    let mut j: usize = 0;
    while j < seen.len()
        invariant
            j <= seen@.len(),
            ks == string_views(seen@),
            seen@ == old(seen)@,
            n@ == file_name@,
            key@ == map_chars(file_name@, |c: char| ascii_lower(c)),
            forall|k: int| 0 <= k < j ==> ks[k] != key@,
        decreases seen@.len() - j,
    {
        if crate::edit::chars_eq(&chars_of(seen[j].as_str()), &key) {
            assert(ks[j as int] == key@);
            assert(ks.contains(key@));
            let mut m: Vec<char> = Vec::new();
            push_str(&mut m, "压缩包内存在重名 DLL：");
            push_all(&mut m, &n);
            return Err(string_from_chars(m));
        }
        j += 1;
    }
    assert(!ks.contains(key@)) by {
        if ks.contains(key@) {
            let k = choose|k: int| 0 <= k < ks.len() && ks[k] == key@;
            assert(ks[k] != key@);
        }
    }
    let ks_string = string_from_chars(key);
    seen.push(ks_string);
    assert(string_views(seen@) =~= ks.push(ks_string@));
    Ok(())
}

/// The names joined by `、`.
pub open spec fn joined_names(names: Seq<Seq<char>>) -> Seq<char>
    decreases names.len(),
{
    if names.len() == 0 {
        seq![]
    } else if names.len() == 1 {
        names[0]
    } else {
        joined_names(names.drop_last()) + "、"@ + names.last()
    }
}

/// `prefix` followed by the missing file names joined by `、`.
pub fn missing_files_message(prefix: &str, names: &Vec<String>) -> (r: String)
    ensures
        r@ == prefix@ + joined_names(string_views(names@)),
{
    let ghost ns = string_views(names@);
    let mut out: Vec<char> = Vec::new();
    push_str(&mut out, prefix);
    let mut i: usize = 0;
    assert(ns.take(0) =~= Seq::<Seq<char>>::empty());
    while i < names.len()
        invariant
            i <= names@.len(),
            ns == string_views(names@),
            out@ == prefix@ + joined_names(ns.take(i as int)),
        decreases names@.len() - i,
    {
        assert(ns.take(i + 1).drop_last() =~= ns.take(i as int));
        assert(ns.take(i + 1).last() == names@[i as int]@);
        if i > 0 {
            push_str(&mut out, "、");
        } else {
            assert(ns.take(1) =~= seq![names@[0]@]);
        }
        push_str(&mut out, names[i].as_str());
        i += 1;
        assert(out@ =~= prefix@ + joined_names(ns.take(i as int)));
    }
    assert(ns.take(i as int) =~= ns);
    string_from_chars(out)
}

// ---------------------------------------------------------------------------
// Colour lookup tables
// ---------------------------------------------------------------------------

/// A `..` component of `p` starts at `i`.
pub open spec fn parent_at(p: Seq<char>, i: int, style: PathStyle) -> bool {
    &&& 0 <= i
    &&& i + 2 <= p.len()
    &&& (i == 0 || is_sep(p[i - 1], style))
    &&& p[i] == '.'
    &&& p[i + 1] == '.'
    &&& (i + 2 == p.len() || is_sep(p[i + 2], style))
}

/// A lookup table path the editor may name: after trimming, not empty, neither
/// rooted nor (on Windows) starting with a drive, and without a `..`
/// component.
pub open spec fn lut_path_ok(lut_file: Seq<char>, style: PathStyle) -> bool {
    let t = trim(lut_file);
    &&& t.len() > 0
    &&& !is_sep(t[0], style)
    &&& !(style == PathStyle::Windows && t.len() >= 2 && t[1] == ':' && (('a' <= t[0] && t[0]
        <= 'z') || ('A' <= t[0] && t[0] <= 'Z')))
    &&& forall|i: int| !parent_at(t, i, style)
}

fn is_sep_char(c: char, style: PathStyle) -> (r: bool)
    ensures
        r == is_sep(c, style),
{
    c == '/' || (style == PathStyle::Windows && c == '\\')
}

/// Whether `lut_file` is a lookup table path the editor may name (see
/// `lut_path_ok`).
pub fn is_valid_lut_path(lut_file: &str, style: PathStyle) -> (r: bool)
    ensures
        r == lut_path_ok(lut_file@, style),
{
    let c = chars_of(lut_file);
    let (a, b) = trim_range(&c, 0, c.len());
    assert(c@.subrange(0, c@.len() as int) =~= c@);
    let t = copy_range(&c, a, b);
    if t.len() == 0 || is_sep_char(t[0], style) {
        return false;
    }
    let drive = match style {
        PathStyle::Windows => t.len() >= 2 && t[1] == ':' && (('a' <= t[0] && t[0] <= 'z') || (
        'A' <= t[0] && t[0] <= 'Z')),
        PathStyle::Unix => false,
    };
    if drive {
        return false;
    }
    let n = t.len();
    let mut i: usize = 0;
    while i < n
        invariant
            i <= n,
            n == t@.len(),
            t@ == trim(lut_file@),
            t@.len() > 0,
            !is_sep(t@[0], style),
            !(style == PathStyle::Windows && t@.len() >= 2 && t@[1] == ':' && (('a' <= t@[0]
                && t@[0] <= 'z') || ('A' <= t@[0] && t@[0] <= 'Z'))),
            forall|k: int| 0 <= k < i ==> !parent_at(t@, k, style),
        decreases n - i,
    {
        if n - i >= 2 && (i == 0 || is_sep_char(t[i - 1], style)) && t[i] == '.' && t[i + 1] == '.'
            && (i + 2 == n || is_sep_char(t[i + 2], style)) {
            assert(parent_at(t@, i as int, style));
            return false;
        }
        i += 1;
    }
    assert forall|k: int| !parent_at(t@, k, style) by {
        if 0 <= k < n {
        }
    }
    true
}

/// An extension of a lookup table file the composer reads (ASCII case
/// ignored): `cube`, `3dl`, `dat`, `m3d` or `csp`.
pub open spec fn lut_extension_ok(ext: Seq<char>) -> bool {
    ascii_lower_eq(ext, "cube"@) || ascii_lower_eq(ext, "3dl"@) || ascii_lower_eq(ext, "dat"@)
        || ascii_lower_eq(ext, "m3d"@) || ascii_lower_eq(ext, "csp"@)
}

/// Whether a lookup table file with extension `ext` can be used (see
/// `lut_extension_ok`).
pub fn is_supported_lut_extension(ext: &str) -> (r: bool)
    ensures
        r == lut_extension_ok(ext@),
{
    let e = chars_of(ext);
    ascii_lower_eq_exec(&e, &chars_of("cube")) || ascii_lower_eq_exec(&e, &chars_of("3dl"))
        || ascii_lower_eq_exec(&e, &chars_of("dat")) || ascii_lower_eq_exec(&e, &chars_of("m3d"))
        || ascii_lower_eq_exec(&e, &chars_of("csp"))
}

} // verus!
