use aicut::area::remove_xml_child_element;
use aicut::attr::{
    find_xml_attribute_position, parse_xml_attribute_value, xml_attribute_value_end, remove_xml_attribute, replace_or_insert_xml_attribute,
    xml_attribute_value,
};
use aicut::custom::{
    custom_template_name, custom_template_status, custom_template_submission_ready,
    custom_template_video_details,
};
use aicut::download::{
    check_download_size, classify_download_response, download_status_text,
    resume_request_headers, ResumeDecision,
};
use aicut::edit::{remove_all_xml_elements, remove_attribute_from_xml_start_tags};
use aicut::misc::{
    composer_error_message, digest_fingerprint, ensure_not_cancelled, mac_menu_labels,
    preferred_macos_menu_language, validate_partial_download_version, MacMenuLanguage,
    ParsedContentRange,
};
use aicut::paths::{
    decode_percent_encoded, is_absolute_resource_path, is_url_resource_path, resolve_url,
    sanitize_file_name, sanitize_name, sanitize_preview_file_stem,
};
use aicut::resource::{join_resource_relative, normalize_template_resource_element, PathStyle};
use aicut::scan::{collect_xml_child_element_values, find_xml_element_blocks, find_xml_start_tags};
use aicut::subtitle::remove_subtitle_tags;
use aicut::template::{template_tag_version, xml_matches_template_version};
use aicut::xml::{escape_xml_attribute, escape_xml_text, unescape_xml_value};

#[test]
fn escaping_then_unescaping_gives_the_value_back() {
    let value = "a&b<\"'>c&amp;";
    assert_eq!(escape_xml_attribute(value), "a&amp;b&lt;&quot;'&gt;c&amp;amp;");
    assert_eq!(escape_xml_text(value), "a&amp;b&lt;\"'&gt;c&amp;amp;");
    assert_eq!(unescape_xml_value(&escape_xml_attribute(value)), value);
    assert_eq!(unescape_xml_value(&escape_xml_text(value)), value);
    assert!(!escape_xml_attribute(value).contains('"'));
    assert!(!escape_xml_text(value).contains('<'));
    assert_eq!(unescape_xml_value("&lt;&amp;lt;&apos;"), "<&lt;'");
}

#[test]
fn reads_attribute_values_in_every_quoting() {
    let tag = r#"<asset data-id="no" id="a&amp;b" filepath='x y' plain=z/>"#;
    assert_eq!(xml_attribute_value(tag, "id"), Some("a&b".to_string()));
    assert_eq!(xml_attribute_value(tag, "filepath"), Some("x y".to_string()));
    assert_eq!(xml_attribute_value(tag, "plain"), Some("z".to_string()));
    assert_eq!(xml_attribute_value(tag, "missing"), None);
    assert_eq!(parse_xml_attribute_value("'v' rest"), Some("v".to_string()));
    assert_eq!(parse_xml_attribute_value("bare>"), Some("bare".to_string()));
    assert_eq!(parse_xml_attribute_value("\"open"), None);
    assert_eq!(parse_xml_attribute_value(""), None);
}

#[test]
fn reads_back_an_attribute_after_writing_it() {
    let tag = r#"<asset id="a" />"#;
    let inserted = replace_or_insert_xml_attribute(tag, "filepath", "p&q\"r");
    assert_eq!(
        xml_attribute_value(&inserted, "filepath"),
        Some("p&q\"r".to_string())
    );
    assert_eq!(xml_attribute_value(&inserted, "id"), Some("a".to_string()));
    let replaced = replace_or_insert_xml_attribute(tag, "id", "b");
    assert_eq!(xml_attribute_value(&replaced, "id"), Some("b".to_string()));
    assert!(!replaced.contains(r#"id="a""#));
}

#[test]
fn removes_attributes_and_elements() {
    assert_eq!(
        remove_xml_attribute(r#"<asset id="a" generatepath="g" />"#, "generatepath"),
        r#"<asset id="a" />"#
    );
    assert_eq!(
        remove_xml_attribute(r#"<asset id="a" />"#, "generatepath"),
        r#"<asset id="a" />"#
    );
    assert_eq!(
        remove_attribute_from_xml_start_tags(
            r#"<asset generatepath="g"/><assets generatepath="h"/>"#,
            "asset",
            "generatepath"
        ),
        r#"<asset/><assets generatepath="h"/>"#
    );
    assert_eq!(
        remove_all_xml_elements("<a>\n  <g>x</g>\n  <b/>\n</a>", "g"),
        Ok("<a>\n  <b/>\n</a>".to_string())
    );
    assert_eq!(
        remove_all_xml_elements("<a><g>x</a>", "g"),
        Err("XML 中的 g 节点未正确闭合".to_string())
    );
    assert_eq!(
        remove_xml_child_element("<clip>\n    <top-video>x</top-video>\n    <a/>\n</clip>", "top-video"),
        "<clip>\n    <a/>\n</clip>"
    );
    assert_eq!(
        remove_subtitle_tags(r#"a<subtitle id="1">t</subtitle>b<subtitle/>c<subtitles/>"#),
        "abc<subtitles/>"
    );
}

#[test]
fn scans_tags_blocks_and_child_values() {
    assert_eq!(
        find_xml_start_tags("<a x='1'><ab/><a/>", "a"),
        vec!["<a x='1'>".to_string(), "<a/>".to_string()]
    );
    assert_eq!(
        find_xml_element_blocks("<c id='1'>in</c><c/>", "c"),
        vec![
            ("<c id='1'>".to_string(), "in".to_string()),
            ("<c/>".to_string(), String::new())
        ]
    );
    assert_eq!(
        collect_xml_child_element_values("<p> a&amp;b </p><p>  </p><pp>x</pp><p>c</p>", "p"),
        vec!["a&b".to_string(), "c".to_string()]
    );
}

#[test]
fn reads_template_versions() {
    let xml = r#"<root><templates/><template id="t" version="2.1">"#;
    assert_eq!(template_tag_version(xml), Some("2.1".to_string()));
    assert!(xml_matches_template_version(xml, " 2.1 "));
    assert!(!xml_matches_template_version(xml, "2.0"));
    assert_eq!(template_tag_version("<project/>"), None);
}

#[test]
fn resolves_urls_and_resource_paths() {
    assert!(is_url_resource_path("https://x/a.mp4"));
    assert!(!is_url_resource_path("assets/a.mp4"));
    assert!(is_absolute_resource_path("C:\\a.mp4"));
    assert!(is_absolute_resource_path("/a.mp4"));
    assert!(!is_absolute_resource_path("a.mp4"));
    assert_eq!(
        join_resource_relative("/t", "a/b.mp4", PathStyle::Unix),
        "/t/a/b.mp4"
    );
    assert_eq!(
        resolve_url("https://api.example.com/", "/aicut/manual/download"),
        Ok("https://api.example.com/aicut/manual/download".to_string())
    );
    assert_eq!(
        resolve_url("", "https://cdn.example.com/t.xml"),
        Ok("https://cdn.example.com/t.xml".to_string())
    );
    assert_eq!(
        normalize_template_resource_element(
            "<filepath> assets/a.mp4 </filepath>",
            "filepath",
            "/t",
            "/t/assets",
            PathStyle::Unix
        ),
        "<filepath>/t/assets/a.mp4</filepath>"
    );
}

#[test]
fn sanitizes_names() {
    assert_eq!(sanitize_name("a b/c-d_e"), "a_b_c-d_e");
    assert_eq!(sanitize_name(""), "template");
    assert_eq!(sanitize_file_name(" .a:b. "), "a_b");
    assert_eq!(sanitize_file_name(" .. "), "video.mp4");
    assert_eq!(sanitize_preview_file_stem(" clip.. "), "clip");
    assert_eq!(sanitize_preview_file_stem("..."), "video");
    assert_eq!(decode_percent_encoded("a%20b%zz"), "a b%zz");
    assert_eq!(decode_percent_encoded("plain"), "plain");
}

#[test]
fn reads_custom_template_details_and_status() {
    let xml = r#"<template name=" 旅行 "><video><duration> 3000 </duration><resolution>1080x1920</resolution><demo-path>assets/a&amp;b.mp4</demo-path></video></template>"#;
    assert_eq!(
        custom_template_video_details(xml),
        (3000, "1080x1920".to_string(), "assets/a&b.mp4".to_string())
    );
    assert_eq!(custom_template_name(xml, "fallback"), " 旅行 ");
    assert_eq!(
        custom_template_name(r#"<template name="  ">"#, "fallback"),
        "fallback"
    );
    assert_eq!(custom_template_status(Some(0), true), 0);
    assert_eq!(custom_template_status(Some(7), true), 1);
    assert_eq!(custom_template_status(None, false), 2);
    assert!(custom_template_submission_ready(None, false));
    assert!(!custom_template_submission_ready(Some(false), false));
}

#[test]
fn decides_what_to_do_with_download_answers() {
    assert_eq!(
        resume_request_headers(100, Some(" \"e\" ")),
        (Some("bytes=100-".to_string()), Some(" \"e\" ".to_string()))
    );
    assert_eq!(resume_request_headers(100, Some("  ")), (Some("bytes=100-".to_string()), None));
    assert_eq!(resume_request_headers(0, Some("e")), (None, None));
    assert_eq!(download_status_text(1, "下载"), "正在续传素材包...");
    assert_eq!(download_status_text(0, "下载"), "下载");

    let range = |start, total| ParsedContentRange {
        start: Some(start),
        end: None,
        total: Some(total),
    };
    assert!(matches!(
        classify_download_response(412, 10, 0, None, None, None, None),
        ResumeDecision::Restart
    ));
    assert!(matches!(
        classify_download_response(412, 10, 1, None, None, None, None),
        ResumeDecision::Fail { message, cleared: true } if message == "BOS download failed (HTTP 412)"
    ));
    assert!(matches!(
        classify_download_response(416, 10, 1, Some(range(0, 10)), None, None, None),
        ResumeDecision::AlreadyComplete { total: 10 }
    ));
    assert!(matches!(
        classify_download_response(404, 0, 0, None, None, None, None),
        ResumeDecision::Fail { message, cleared: false } if message == "BOS download failed (HTTP 404)"
    ));
    assert!(matches!(
        classify_download_response(206, 10, 1, Some(range(5, 30)), None, None, None),
        ResumeDecision::Fail { message, cleared: true } if message == "BOS resume response range is invalid"
    ));
    assert!(matches!(
        classify_download_response(
            206,
            10,
            1,
            Some(range(10, 30)),
            Some("a".to_string()),
            Some("b".to_string()),
            None
        ),
        ResumeDecision::Fail { message, cleared: true } if message == "BOS object changed while resuming download"
    ));
    assert!(matches!(
        classify_download_response(206, 10, 0, None, None, None, Some(20)),
        ResumeDecision::Restart
    ));
    match classify_download_response(
        206,
        10,
        0,
        Some(range(10, 30)),
        Some("a".to_string()),
        None,
        Some(20),
    ) {
        ResumeDecision::Write {
            append,
            total,
            active_resume_offset,
            etag,
        } => {
            assert!(append);
            assert_eq!(total, Some(30));
            assert_eq!(active_resume_offset, 10);
            assert_eq!(etag.as_deref(), Some("a"));
        }
        _ => panic!("expected the body to be written"),
    }
    match classify_download_response(200, 10, 0, None, None, Some("n".to_string()), Some(20)) {
        ResumeDecision::Write {
            append,
            total,
            active_resume_offset,
            etag,
        } => {
            assert!(!append);
            assert_eq!(total, Some(20));
            assert_eq!(active_resume_offset, 0);
            assert_eq!(etag.as_deref(), Some("n"));
        }
        _ => panic!("expected the body to be written"),
    }
    assert_eq!(check_download_size(5, None), Ok(()));
    assert_eq!(check_download_size(5, Some(5)), Ok(()));
    assert_eq!(
        check_download_size(4, Some(5)),
        Err("BOS download incomplete: received 4 of 5 bytes".to_string())
    );
    assert!(validate_partial_download_version(true, Some("1"), "2"));
    assert!(!validate_partial_download_version(true, Some("2"), "2"));
    assert!(validate_partial_download_version(true, None, "2"));
    assert!(!validate_partial_download_version(false, None, "2"));
    assert_eq!(ensure_not_cancelled(false), Ok(()));
    assert_eq!(ensure_not_cancelled(true), Err("Download canceled".to_string()));
}

#[test]
fn names_composer_results_and_menus() {
    assert_eq!(composer_error_message(0), "合成成功");
    assert_eq!(composer_error_message(-5), "合成已取消");
    assert_eq!(composer_error_message(-9), "Composer 调用失败，错误码 -9");
    assert!(preferred_macos_menu_language("zh-Hant-TW") == MacMenuLanguage::TraditionalChinese);
    assert!(preferred_macos_menu_language("ZH-HK") == MacMenuLanguage::TraditionalChinese);
    assert!(preferred_macos_menu_language("zh-Hans") == MacMenuLanguage::SimplifiedChinese);
    assert!(preferred_macos_menu_language("en-US") == MacMenuLanguage::English);
    assert!(mac_menu_labels(MacMenuLanguage::English).is_none());
    assert_eq!(
        mac_menu_labels(MacMenuLanguage::SimplifiedChinese).map(|l| l.quit),
        Some("退出")
    );
    assert_eq!(
        mac_menu_labels(MacMenuLanguage::TraditionalChinese).map(|l| l.quit),
        Some("結束")
    );
    let digest: Vec<u8> = (0..32).collect();
    assert_eq!(
        digest_fingerprint(&digest),
        "000102030405060708090a0b0c0d0e0f"
    );
}

#[test]
fn keeps_local_custom_template_status_and_submit_eligibility() {
    let status = Some(2u8);
    let submission_ready = Some(false);
    assert_eq!(custom_template_status(status, false), 2);
    assert!(!custom_template_submission_ready(submission_ready, false));
}

#[test]
fn attribute_positions_are_byte_offsets() {
    let tag = "<a 名=\"x\" id=\"1\">";
    assert_eq!(find_xml_attribute_position(tag, "id"), Some(11));
    assert_eq!(&tag[11..13], "id");
    assert_eq!(xml_attribute_value_end(tag, 14), Some(17));
    assert_eq!(find_xml_attribute_position(tag, "name"), None);

    let wide = "<a t=\"中文\" b=1>";
    assert_eq!(xml_attribute_value_end(wide, 5), Some(13));
    assert_eq!(&wide[5..13], "\"中文\"");
    assert_eq!(xml_attribute_value_end(wide, 16), Some(17));
    assert_eq!(xml_attribute_value_end(wide, wide.len()), None);
    assert_eq!(xml_attribute_value_end("<a t=\"open>", 5), None);
}

#[test]
fn element_ranges_are_byte_offsets() {
    let s = "<a>名</a><speed x=\"1\">1.0</speed>";
    let (t, e, c, d) = aicut::scan::first_xml_element_range(s, "speed").unwrap();
    assert_eq!(t, 10);
    assert_eq!(&s[t..e], "<speed x=\"1\">");
    assert_eq!(&s[e..c], "1.0");
    assert_eq!(&s[c..d], "</speed>");
    assert_eq!(d, s.len());
    assert_eq!(aicut::scan::first_xml_element_range("<speed/>", "speed"), None);
}

#[test]
fn removing_an_inserted_attribute_gives_the_tag_back() {
    let inserted = replace_or_insert_xml_attribute("<speed>", "data-auto-slowdown", "true");
    assert_eq!(inserted, "<speed data-auto-slowdown=\"true\">");
    assert_eq!(remove_xml_attribute(&inserted, "data-auto-slowdown"), "<speed>");
    let tag = "<speed x=\"1\">";
    let inserted = replace_or_insert_xml_attribute(tag, "data-original-speed", "0.5");
    assert_eq!(remove_xml_attribute(&inserted, "data-original-speed"), tag);
    assert_eq!(remove_xml_attribute(tag, "data-original-speed"), tag);
}

#[test]
fn writing_an_attribute_keeps_the_others() {
    let tag = "<area id=\"a-1\" asset-id=\"x\" offset=\"0\">";
    let written = replace_or_insert_xml_attribute(tag, "asset-id", "y & z");
    assert_eq!(written, "<area id=\"a-1\" asset-id=\"y &amp; z\" offset=\"0\">");
    assert_eq!(xml_attribute_value(&written, "id").as_deref(), Some("a-1"));
    assert_eq!(xml_attribute_value(&written, "offset").as_deref(), Some("0"));
    assert_eq!(xml_attribute_value(&written, "asset-id").as_deref(), Some("y & z"));
    let added = replace_or_insert_xml_attribute(tag, "generatepath", "/g.mp4");
    assert_eq!(xml_attribute_value(&added, "id").as_deref(), Some("a-1"));
    assert_eq!(xml_attribute_value(&added, "asset-id").as_deref(), Some("x"));
    assert_eq!(xml_attribute_value(&added, "offset").as_deref(), Some("0"));
}

#[test]
fn storing_an_area_property_twice_changes_nothing() {
    let inner = "\n        <source><duration>1000</duration></source>\n        <property>\n            <saturation>80.0</saturation>\n        </property>\n    ";
    let property = "<property>\n            <saturation>122.0</saturation>\n        </property>";
    let once = aicut::props::replace_or_append_area_property(inner, property, "        ");
    assert_eq!(
        once,
        "\n        <source><duration>1000</duration></source>\n        <property>\n            <saturation>122.0</saturation>\n        </property>\n    "
    );
    assert_eq!(once.matches("<property").count(), 1);
    let twice = aicut::props::replace_or_append_area_property(&once, property, "        ");
    assert_eq!(twice, once);
}

#[test]
fn writes_a_name_found_inside_another_name() {
    let tag = "<speed data-x=\"1\">";
    let inserted = replace_or_insert_xml_attribute(tag, "x", "2");
    assert_eq!(inserted, "<speed data-x=\"1\" x=\"2\">");
    assert_eq!(xml_attribute_value(&inserted, "x").as_deref(), Some("2"));
    assert_eq!(xml_attribute_value(&inserted, "data-x").as_deref(), Some("1"));
    assert_eq!(remove_xml_attribute(&inserted, "x"), tag);
    let area = "<area asset-id=\"x\">";
    let with_id = replace_or_insert_xml_attribute(area, "id", "a-1");
    assert_eq!(xml_attribute_value(&with_id, "id").as_deref(), Some("a-1"));
    assert_eq!(xml_attribute_value(&with_id, "asset-id").as_deref(), Some("x"));
    let renamed = replace_or_insert_xml_attribute("<area data-x=\"1\" x=\"2\">", "data-x", "3 & 4");
    assert_eq!(xml_attribute_value(&renamed, "x").as_deref(), Some("2"));
}
