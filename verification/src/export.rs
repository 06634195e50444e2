//! The checks an export from the editor's plug-in passes before the bridge
//! takes it, and the event the bridge hands to the editor.

use vstd::prelude::*;
use vstd::utf8::encode_utf8;
use crate::resource::{absolute_path, file_name, PathStyle};
use crate::text::{chars_of, copy_range, find_from, first_match, opt_int, string_from_chars, trim, trim_range};

verus! {

broadcast use vstd::string::group_string_axioms;

/// The largest `template.xml` the bridge reads, in bytes (8 MiB).
pub const PR_BRIDGE_MAX_XML_BYTES: u64 = 8388608;

/// The longest export id, in UTF-8 bytes.
pub const PR_BRIDGE_MAX_EVENT_ID_BYTES: usize = 128;

/// What the plug-in sends when a template was exported.
pub struct PrTemplateExportRequest {
    pub event_id: String,
    pub plugin_version: Option<String>,
    pub exported_at: Option<String>,
    pub template_path: String,
}

/// An export the bridge took, as the editor receives it.
#[derive(Clone)]
pub struct PrTemplateExportEvent {
    pub event_id: String,
    pub plugin_version: Option<String>,
    pub exported_at: Option<String>,
    pub template_path: String,
    pub project_root: String,
    pub xml_content: String,
}

/// The checks made before the file is looked at: the trimmed export id must be
/// non-empty and at most 128 bytes, the trimmed template path absolute and
/// naming `template.xml`.  The trimmed id and path when they pass.
pub open spec fn export_request_check(
    event_id: Seq<char>,
    template_path: Seq<char>,
    style: PathStyle,
) -> Result<(Seq<char>, Seq<char>), Seq<char>> {
    let e = trim(event_id);
    let t = trim(template_path);
    if e.len() == 0 || encode_utf8(e).len() > PR_BRIDGE_MAX_EVENT_ID_BYTES {
        Err("eventId is invalid"@)
    } else if !absolute_path(t, style) {
        Err("templatePath must be absolute"@)
    } else if file_name(t, style) != "template.xml"@ {
        Err("templatePath must point to template.xml"@)
    } else {
        Ok((e, t))
    }
}

fn trimmed(s: &str) -> (r: String)
    ensures
        r@ == trim(s@),
{
    let c = chars_of(s);
    let (a, b) = trim_range(&c, 0, c.len());
    assert(c@.subrange(0, c@.len() as int) =~= c@);
    string_from_chars(copy_range(&c, a, b))
}

fn absolute_path_exec(p: &[char], style: PathStyle) -> (r: bool)
    ensures
        r == absolute_path(p@, style),
{
    match style {
        PathStyle::Unix => p.len() > 0 && p[0] == '/',
        PathStyle::Windows => (p.len() >= 3 && (('a' <= p[0] && p[0] <= 'z') || ('A' <= p[0]
            && p[0] <= 'Z')) && p[1] == ':' && (p[2] == '/' || p[2] == '\\')) || (p.len() >= 2
            && (p[0] == '/' || p[0] == '\\') && (p[1] == '/' || p[1] == '\\')),
    }
}

/// Checks an export request before its file is looked at (see
/// `export_request_check`); the trimmed id and path when it passes.
pub fn check_pr_template_export_request(request: &PrTemplateExportRequest, style: PathStyle) -> (r:
    Result<(String, String), String>)
    ensures
        match export_request_check(request.event_id@, request.template_path@, style) {
            Ok((e, t)) => r matches Ok((a, b)) && a@ == e && b@ == t,
            Err(m) => r matches Err(x) && x@ == m,
        },
{
    let e = trimmed(request.event_id.as_str());
    let size = e.as_str().as_bytes().len();
    assert(size == encode_utf8(e@).len());
    if e.as_str().as_bytes().len() == 0 || size > PR_BRIDGE_MAX_EVENT_ID_BYTES {
        proof {
            if e@.len() > 0 {
                vstd::utf8::encode_utf8_first_scalar(e@);
            }
        }
        return Err("eventId is invalid".to_string());
    }
    proof {
        if e@.len() == 0 {
            assert(encode_utf8(e@) =~= Seq::<u8>::empty()) by {
                reveal_with_fuel(encode_utf8, 1);
            }
        }
    }
    let t = trimmed(request.template_path.as_str());
    let tc = chars_of(t.as_str());
    if !absolute_path_exec(&tc, style) {
        return Err("templatePath must be absolute".to_string());
    }
    let name = crate::resource::file_name_chars(&tc, style);
    if !crate::edit::chars_eq(&name, &chars_of("template.xml")) {
        return Err("templatePath must point to template.xml".to_string());
    }
    Ok((e, t))
}

/// What the file's metadata must show: a file of at most 8 MiB.
pub open spec fn template_file_check(is_file: bool, len: u64) -> Result<(), Seq<char>> {
    if !is_file {
        Err("templatePath is not a file"@)
    } else if len > PR_BRIDGE_MAX_XML_BYTES {
        Err("template.xml is too large"@)
    } else {
        Ok(())
    }
}

/// Checks the metadata of the exported `template.xml` (see
/// `template_file_check`).
pub fn check_pr_template_file(is_file: bool, len: u64) -> (r: Result<(), String>)
    ensures
        match template_file_check(is_file, len) {
            Ok(()) => r is Ok,
            Err(m) => r matches Err(x) && x@ == m,
        },
{
    if !is_file {
        return Err("templatePath is not a file".to_string());
    }
    if len > PR_BRIDGE_MAX_XML_BYTES {
        return Err("template.xml is too large".to_string());
    }
    Ok(())
}

/// The text holds a `<template` node.
pub open spec fn has_template_node(xml: Seq<char>) -> bool {
    first_match(xml, "<template"@, 0) is Some
}

/// The event for `request`, once its `template.xml` was read as `xml_content`
/// from the project directory `project_root`: the request's checks (see
/// `export_request_check`), then the text must hold a `<template` node; the
/// event carries the trimmed id and path.
pub fn pr_template_export_event(
    request: PrTemplateExportRequest,
    project_root: String,
    xml_content: String,
    style: PathStyle,
) -> (r: Result<PrTemplateExportEvent, String>)
    ensures
        match export_request_check(request.event_id@, request.template_path@, style) {
            Err(m) => r matches Err(x) && x@ == m,
            Ok((e, t)) => if !has_template_node(xml_content@) {
                r matches Err(x) && x@ == "template.xml does not contain a template node"@
            } else {
                r matches Ok(ev) && ev.event_id@ == e && ev.template_path@ == t
                    && ev.plugin_version == request.plugin_version && ev.exported_at
                    == request.exported_at && ev.project_root == project_root && ev.xml_content
                    == xml_content
            },
        },
{
    let (event_id, template_path) = match check_pr_template_export_request(&request, style) {
        Ok(x) => x,
        Err(m) => {
            return Err(m);
        },
    };
    let xml = chars_of(xml_content.as_str());
    let found = find_from(&xml, &chars_of("<template"), 0);
    if found.is_none() {
        return Err("template.xml does not contain a template node".to_string());
    }
    Ok(
        PrTemplateExportEvent {
            event_id,
            plugin_version: request.plugin_version,
            exported_at: request.exported_at,
            template_path,
            project_root,
            xml_content,
        },
    )
}

} // verus!
