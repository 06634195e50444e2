use aicut::fingerprint::{
    index_distinct_paths, project_asset_fingerprint_list, template_default_asset_sources,
    template_id_of,
};
use aicut::platform::{
    bos_request_error_message, check_help_guide_token, composer_failure_message,
    hardware_uuid_from_profile, help_guide_failure_message, is_runtime_dll_entry,
    is_supported_lut_extension, is_valid_lut_path, missing_files_message, remember_runtime_dll,
};
use aicut::resource::PathStyle;
use aicut::store::{
    check_custom_template_read, check_custom_template_save, check_upload_chunk_size,
    custom_template_summary, remember_template_asset,
    is_reserved_storage_directory, sort_custom_templates_by_update, upload_asset_archive_name,
    upload_chunk_range, upload_part_file_name, CustomTemplateSummary,
};
use aicut::workspace::{
    asset_file_still_referenced, asset_ids_with_filepaths, asset_media_file_name,
    check_asset_id, check_clone_request, cloned_project_files, is_asset_preview_file_name,
    numbered_download_name, project_asset_file_name, project_workspace_id,
    requested_project_ids, workspace_folder_selected,
};

fn summary(id: &str, updated_at: &str) -> CustomTemplateSummary {
    CustomTemplateSummary {
        template_id: id.to_string(),
        backend_template_id: None,
        status: 2,
        submission_ready: true,
        name: id.to_string(),
        duration_ms: 0,
        resolution: String::new(),
        preview_path: String::new(),
        updated_at: updated_at.to_string(),
    }
}

#[test]
fn lists_custom_templates_newest_first_keeping_ties_in_order() {
    let sorted = sort_custom_templates_by_update(vec![
        summary("a", "2024-01-02 10:00:00"),
        summary("b", "2024-03-01 09:00:00"),
        summary("c", "2024-01-02 10:00:00"),
        summary("d", "2023-12-31 23:59:59"),
        summary("e", "2024-03-01 09:00:00"),
    ]);
    let ids: Vec<&str> = sorted.iter().map(|t| t.template_id.as_str()).collect();
    assert_eq!(ids, vec!["b", "e", "a", "c", "d"]);
    assert!(sort_custom_templates_by_update(Vec::new()).is_empty());
}

#[test]
fn checks_custom_template_ids() {
    assert_eq!(
        check_custom_template_save(" 旅行/模板 ", "<template />"),
        Ok("旅行_模板".to_string())
    );
    assert_eq!(
        check_custom_template_save("  ", "<template />"),
        Err("templateId 不能为空".to_string())
    );
    assert_eq!(
        check_custom_template_save("id", " \n"),
        Err("模板 XML 不能为空".to_string())
    );
    assert_eq!(
        check_custom_template_save("TEMP", "<template />"),
        Err("templateId 不能为 temp".to_string())
    );
    assert_eq!(
        check_custom_template_read(" a b "),
        Ok(("a b".to_string(), "a_b".to_string()))
    );
    assert_eq!(
        check_custom_template_read("Temp"),
        Err("不能读取临时模板目录".to_string())
    );
    assert!(is_reserved_storage_directory("PrTemp"));
    assert!(!is_reserved_storage_directory("template-123"));
}

#[test]
fn leaves_cover_and_top_layers_out_of_the_upload_archive() {
    assert_eq!(upload_asset_archive_name("cover.png", PathStyle::Unix), None);
    assert_eq!(upload_asset_archive_name("TmpTop.MOV", PathStyle::Unix), None);
    assert_eq!(
        upload_asset_archive_name("top-segment-002.MOV", PathStyle::Unix),
        None
    );
    assert_eq!(
        upload_asset_archive_name("sub\\template.mp4", PathStyle::Windows),
        Some("sub/template.mp4".to_string())
    );
    assert_eq!(
        upload_asset_archive_name("sub/cover.png", PathStyle::Unix),
        Some("sub/cover.png".to_string())
    );
    assert_eq!(
        upload_asset_archive_name("top.mov", PathStyle::Unix),
        Some("top.mov".to_string())
    );
}

#[test]
fn cuts_uploads_into_chunks_inside_the_file() {
    assert_eq!(upload_part_file_name("xml"), Ok(".upload-template.xml"));
    assert_eq!(upload_part_file_name("cover"), Ok("cover.png"));
    assert_eq!(upload_part_file_name("assets"), Ok("assets.zip"));
    assert_eq!(
        upload_part_file_name("video"),
        Err("上传文件类型无效".to_string())
    );
    assert_eq!(check_upload_chunk_size(0), Err("上传分片大小无效".to_string()));
    assert_eq!(
        check_upload_chunk_size(20 * 1024 * 1024 + 1),
        Err("上传分片大小无效".to_string())
    );
    assert_eq!(check_upload_chunk_size(20 * 1024 * 1024), Ok(()));
    assert_eq!(upload_chunk_range(0, 10, 25), Ok((0, 10)));
    assert_eq!(upload_chunk_range(2, 10, 25), Ok((20, 5)));
    assert_eq!(
        upload_chunk_range(3, 10, 25),
        Err("上传分片超出文件范围".to_string())
    );
    assert_eq!(
        upload_chunk_range(u64::MAX, 2, 25),
        Err("上传分片序号无效".to_string())
    );
}

#[test]
fn lists_each_default_asset_with_its_file() {
    let xml = r#"<template id="tpl-1"><default-asset>
        <asset id="first" filepath="assets/a.mp4" />
        <asset filepath="assets/ignored.mp4" />
        <asset id="second" />
    </default-asset><default-asset><asset id="third" filepath="/abs/c.mp4" /></default-asset></template>"#;
    let sources = template_default_asset_sources(xml, "/t", "/t/assets", PathStyle::Unix);
    assert_eq!(
        sources,
        vec![
            ("first".to_string(), "/t/assets/a.mp4".to_string()),
            ("second".to_string(), String::new()),
            ("third".to_string(), "/abs/c.mp4".to_string()),
        ]
    );
    assert_eq!(template_id_of(xml), "tpl-1");
    assert_eq!(template_id_of("<project />"), "");
}

#[test]
fn hashes_each_shared_file_once_and_lists_missing_files_empty() {
    let paths = vec![
        Some("/a".to_string()),
        None,
        Some("/b".to_string()),
        Some("/a".to_string()),
    ];
    let (indices, distinct) = index_distinct_paths(&paths);
    assert_eq!(indices, vec![Some(0), None, Some(1), Some(0)]);
    assert_eq!(distinct, vec!["/a".to_string(), "/b".to_string()]);
    let fingerprints = vec!["fa".to_string(), "fb".to_string()];
    let list = project_asset_fingerprint_list(
        vec![
            ("first".to_string(), Some(0)),
            ("missing".to_string(), None),
            ("second".to_string(), Some(1)),
            ("shared".to_string(), Some(0)),
            ("unhashed".to_string(), Some(7)),
        ],
        &fingerprints,
    );
    let pairs: Vec<(&str, &str)> = list
        .iter()
        .map(|f| (f.material_key.as_str(), f.fingerprint.as_str()))
        .collect();
    assert_eq!(
        pairs,
        vec![
            ("first", "fa"),
            ("missing", ""),
            ("second", "fb"),
            ("shared", "fa"),
            ("unhashed", "")
        ]
    );
}

#[test]
fn names_workspaces_and_asset_files() {
    assert_eq!(project_workspace_id("tpl 1", "42"), "tpl_1-42");
    assert_eq!(project_workspace_id("", "42"), "template-42");
    assert_eq!(check_asset_id("  a-1 "), Ok("a-1".to_string()));
    assert_eq!(check_asset_id("  "), Err("assetId 不能为空".to_string()));
    assert_eq!(
        asset_media_file_name("a/1", 1700, Some("mov")),
        "a_1_1700.mov"
    );
    assert_eq!(asset_media_file_name("a1", 5, Some("")), "a1_5.mp4");
    assert_eq!(asset_media_file_name("a1", 5, None), "a1_5.mp4");
    assert!(is_asset_preview_file_name("a_1_1700.mov", "a/1"));
    assert!(!is_asset_preview_file_name("a_10_1700.mov", "a_1x"));
    assert_eq!(
        project_asset_file_name("00ff", Some(" clip?.mp4 ")),
        "00ff_clip_.mp4"
    );
    assert_eq!(project_asset_file_name("00ff", None), "00ff_video.mp4");
}

#[test]
fn selects_workspaces_and_files_for_deletion() {
    let ids = requested_project_ids(&vec![
        " 12 ".to_string(),
        "x1".to_string(),
        "".to_string(),
        "12".to_string(),
        "7".to_string(),
    ]);
    assert_eq!(ids, vec!["12".to_string(), "7".to_string()]);
    assert!(workspace_folder_selected("tpl-a-12", &ids));
    assert!(!workspace_folder_selected("tpl-a-13", &ids));
    assert!(!workspace_folder_selected("nodash", &ids));
    let referenced = vec!["project/assets/x.mp4".to_string()];
    assert!(asset_file_still_referenced(
        "/p",
        "/p/assets/x.mp4",
        &referenced,
        PathStyle::Unix
    ));
    assert!(!asset_file_still_referenced(
        "/p",
        "/p/assets/y.mp4",
        &referenced,
        PathStyle::Unix
    ));
    let tags = asset_ids_with_filepaths(
        r#"<asset id="a" filepath="/x.mp4" /><asset id="b" /><asset filepath="/z" />"#,
    );
    assert_eq!(tags, vec![("a".to_string(), "/x.mp4".to_string())]);
}

#[test]
fn copies_a_project_without_generated_paths() {
    assert_eq!(
        check_clone_request(" t ", " 9 ", " 名 "),
        Ok(("t".to_string(), "9".to_string(), "名".to_string()))
    );
    assert_eq!(
        check_clone_request("t", " ", "n"),
        Err("新工程 ID、名称或模板 ID 不能为空".to_string())
    );
    let (template, project) = cloned_project_files(
        r#"<template><asset id="a" generatepath="/g.mp4" /></template>"#,
        r#"<project id="1" name="old"><generatepath>/g.mp4</generatepath></project>"#,
        "t-9",
        "副本",
    )
    .expect("clone");
    assert!(!template.contains("generatepath"));
    assert!(!project.contains("generatepath"));
    assert!(project.contains(r#"<project id="t-9" name="副本">"#));
    assert_eq!(
        cloned_project_files("<template />", "<root />", "t-9", "n").err(),
        Some("projectFile.xml 缺少 project 节点".to_string())
    );
}

#[test]
fn numbers_alternative_names_for_a_download() {
    assert_eq!(
        numbered_download_name("手册.docx", 1, PathStyle::Unix),
        "手册 (1).docx"
    );
    assert_eq!(
        numbered_download_name("archive.tar.gz", 3, PathStyle::Unix),
        "archive.tar (3).gz"
    );
    assert_eq!(numbered_download_name("README", 2, PathStyle::Unix), "README (2)");
    assert_eq!(numbered_download_name(".env", 2, PathStyle::Unix), ".env (2)");
    assert_eq!(numbered_download_name("", 2, PathStyle::Unix), "AICut使用手册 (2)");
}

#[test]
fn reads_the_hardware_uuid_from_the_system_profile() {
    let profile = "Hardware:\n\n    Model Name: Mac\n      Hardware UUID: 1234-ABCD  \r\n";
    assert_eq!(hardware_uuid_from_profile(profile), Ok("1234-ABCD".to_string()));
    assert_eq!(
        hardware_uuid_from_profile("Hardware UUID:   \nHardware UUID: later\n"),
        Err("Hardware UUID not found".to_string())
    );
    assert_eq!(
        hardware_uuid_from_profile("nothing here"),
        Err("Hardware UUID not found".to_string())
    );
}

#[test]
fn words_failed_requests_and_compositions() {
    assert_eq!(bos_request_error_message(true, true), "BOS request timed out");
    assert_eq!(bos_request_error_message(false, true), "BOS connection failed");
    assert_eq!(
        bos_request_error_message(false, false),
        "BOS network request failed"
    );
    assert_eq!(help_guide_failure_message(401), "未登录或 Token 已失效");
    assert_eq!(
        help_guide_failure_message(404),
        "当前登录端对应的使用手册尚未配置"
    );
    assert_eq!(help_guide_failure_message(500), "使用手册文件读取或下载异常");
    assert_eq!(help_guide_failure_message(503), "指南下载失败（HTTP 503）");
    assert_eq!(check_help_guide_token(" t "), Ok("t".to_string()));
    assert_eq!(
        check_help_guide_token(" "),
        Err("未登录或 Token 已失效".to_string())
    );
    assert_eq!(composer_failure_message(-4, "  "), "视频合成失败");
    assert_eq!(
        composer_failure_message(-4, "composer_get_last_error 返回空指针"),
        "视频合成失败"
    );
    assert_eq!(
        composer_failure_message(-2, "missing a.mp4"),
        "文件未找到: missing a.mp4"
    );
    assert_eq!(
        composer_failure_message(7, ""),
        "Composer 调用失败，错误码 7"
    );
}

#[test]
fn installs_each_runtime_library_once() {
    assert!(is_runtime_dll_entry("cudart64_12.DLL"));
    assert!(!is_runtime_dll_entry("LibComposer.dll"));
    assert!(!is_runtime_dll_entry("readme.txt"));
    assert!(!is_runtime_dll_entry("dll"));
    let mut seen = Vec::new();
    assert_eq!(remember_runtime_dll(&mut seen, "A.dll"), Ok(()));
    assert_eq!(
        remember_runtime_dll(&mut seen, "a.DLL"),
        Err("压缩包内存在重名 DLL：a.DLL".to_string())
    );
    assert_eq!(seen, vec!["a.dll".to_string()]);
    assert_eq!(
        missing_files_message(
            "运行库压缩包缺少文件：",
            &vec!["a.dll".to_string(), "b.dll".to_string()]
        ),
        "运行库压缩包缺少文件：a.dll、b.dll"
    );
}

#[test]
fn accepts_only_relative_lookup_tables_of_known_formats() {
    assert!(is_valid_lut_path(" luts/自然清新质感.cube ", PathStyle::Unix));
    assert!(is_valid_lut_path("./a/b.cube", PathStyle::Unix));
    assert!(!is_valid_lut_path("", PathStyle::Unix));
    assert!(!is_valid_lut_path("/etc/a.cube", PathStyle::Unix));
    assert!(!is_valid_lut_path("a/../b.cube", PathStyle::Unix));
    assert!(!is_valid_lut_path("..", PathStyle::Unix));
    assert!(is_valid_lut_path("a/..b.cube", PathStyle::Unix));
    assert!(!is_valid_lut_path("C:a.cube", PathStyle::Windows));
    assert!(!is_valid_lut_path("a\\..\\b.cube", PathStyle::Windows));
    assert!(is_valid_lut_path("a\\..\\b.cube", PathStyle::Unix));
    assert!(is_supported_lut_extension("CUBE"));
    assert!(is_supported_lut_extension("3dl"));
    assert!(!is_supported_lut_extension("png"));
}

#[test]
fn summarises_a_custom_template_from_its_file() {
    let xml = "<template name=\"My &amp; cut\"><video><duration> 1500 </duration>\
<resolution>1080x1920</resolution><demo-path>demo.mp4</demo-path></video></template>";
    let entry = custom_template_summary(
        "tpl-1".to_string(),
        xml,
        Some("remote-9".to_string()),
        1,
        false,
        "/tmp/demo.mp4".to_string(),
        0,
    );
    assert_eq!(entry.template_id, "tpl-1");
    assert_eq!(entry.backend_template_id.as_deref(), Some("remote-9"));
    assert_eq!(entry.status, 1);
    assert!(!entry.submission_ready);
    assert_eq!(entry.name, "My & cut");
    assert_eq!(entry.duration_ms, 1500);
    assert_eq!(entry.resolution, "1080x1920");
    assert_eq!(entry.preview_path, "/tmp/demo.mp4");
    assert_eq!(entry.updated_at.len(), "1970-01-01 00:00:00".len());

    let unnamed = custom_template_summary("tpl-2".to_string(), "<template/>", None, 0, true, String::new(), 0);
    assert_eq!(unnamed.name, "tpl-2");
    assert_eq!(unnamed.duration_ms, 0);
    assert_eq!(unnamed.resolution, "");
}

#[test]
fn copies_each_template_asset_name_once() {
    let mut copied: Vec<(String, String)> = Vec::new();
    assert_eq!(remember_template_asset(&mut copied, "Intro.MP4", "/a/Intro.MP4"), Ok(true));
    assert_eq!(copied, vec![("intro.mp4".to_string(), "/a/Intro.MP4".to_string())]);
    assert_eq!(remember_template_asset(&mut copied, "intro.mp4", "/a/Intro.MP4"), Ok(false));
    assert_eq!(
        remember_template_asset(&mut copied, "INTRO.mp4", "/b/INTRO.mp4"),
        Err("存在两个同名模板素材，无法保存：INTRO.mp4".to_string())
    );
    assert_eq!(copied.len(), 1);
    assert_eq!(remember_template_asset(&mut copied, "Ärger.mov", "/c/Ärger.mov"), Ok(true));
    assert_eq!(copied[1].0, "ärger.mov");
}
