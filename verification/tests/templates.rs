use aicut::custom::build_custom_template_upload_xml;
use aicut::resource::{
    normalize_composer_output_path, normalize_template_resource_paths, path_to_xml_filepath,
    PathStyle,
};
use aicut::subtitle::{
    find_first_template_subtitle, update_project_subtitle, update_template_subtitle_default,
    TemplateSubtitle,
};
use aicut::template::generate_project_file_xml;
use aicut::xml::escape_xml_text;
use std::path::PathBuf;

#[test]
fn normalizes_custom_composer_output_path() {
    let output_dir = PathBuf::from("/Users/aicut/Videos");
    let without_extension = output_dir.join("我的视频");
    let normalized =
        normalize_composer_output_path(&without_extension.to_string_lossy(), PathStyle::Unix)
            .expect("normalize output path");

    assert_eq!(PathBuf::from(normalized), output_dir.join("我的视频.mp4"));
    assert!(normalize_composer_output_path("relative/video.mp4", PathStyle::Unix).is_err());
    assert!(normalize_composer_output_path(
        &output_dir.join("我的视频.mov").to_string_lossy(),
        PathStyle::Unix
    )
    .is_err());
}

#[test]
fn generates_project_file_xml_from_template() {
    let template_xml = r#"<xmeml version="5">
    <template id="seqvvgcrrjs0yizf4tn" name="测试模板" version="1.0" timeunit="millisecond">
        <media-asset id="serhw8q52e9zp4s273w" name="素材集">
            <default-asset>
                <asset id="i3o6p9a2s5d8f1g4j7q0w" filepath="template/assets/1.mp4"/>
            </default-asset>
        </media-asset>
        <clips id="z7x1c4v8b2n5m9q0w3e6r" target-track="clips">
            <clip id="u4p7a0d3f6g9j2k5p8s1t" name="片段">
                <area id="e7r0t3y6u1i4o7p9a2s5d" asset-id="i3o6p9a2s5d8f1g4j7q0w">
                    <source>
                        <duration>5000</duration>
                    </source>
                </area>
            </clip>
        </clips>
    </template>
</xmeml>"#;
    let project_xml =
        generate_project_file_xml(template_xml, "tpl-test-1000", 1000).expect("project xml");

    assert!(project_xml.contains("<project id=\"tpl-test-1000\""));
    assert!(project_xml.contains("<template id=\"seqvvgcrrjs0yizf4tn\" version=\"1.0\">"));
    let last_update_time = project_xml
        .split("<last-updtime>")
        .nth(1)
        .and_then(|value| value.split("</last-updtime>").next())
        .expect("last update time");

    assert_eq!(last_update_time.len(), 19);
    assert_eq!(&last_update_time[4..5], "-");
    assert_eq!(&last_update_time[7..8], "-");
    assert_eq!(&last_update_time[10..11], " ");
    assert_eq!(&last_update_time[13..14], ":");
    assert_eq!(&last_update_time[16..17], ":");
    assert!(!project_xml.contains("<last-updtime>1000</last-updtime>"));
    assert!(project_xml.contains("<media-asset id=\"serhw8q52e9zp4s273w\">"));
    assert!(project_xml.contains("filepath=\"template/assets/1.mp4\""));
    assert!(!project_xml.contains("<media-assets>"));
    assert!(project_xml.contains("<clips id=\"z7x1c4v8b2n5m9q0w3e6r\" target-track=\"clips\">"));
    assert!(project_xml.contains(
        "<area id=\"e7r0t3y6u1i4o7p9a2s5d\" asset-id=\"i3o6p9a2s5d8f1g4j7q0w\" offset=\"0\" />"
    ));
    assert!(!project_xml.contains("<source>"));
}

#[test]
fn copies_template_area_properties_into_project_file() {
    let template_xml = r#"<xmeml version="5">
    <template id="template-a" name="Template A" version="1.0" timeunit="millisecond">
        <media-asset id="group-a">
            <default-asset>
                <asset id="asset-a" filepath="/videos/a.mov" />
            </default-asset>
        </media-asset>
        <clips id="clips-a" target-track="clips">
            <clip id="clip-a">
                <area id="area-a" asset-id="asset-a">
                    <source><duration>5000</duration></source>
                    <property>
                        <whiteness>0.5</whiteness>
                        <smoothing>0.25</smoothing>
                        <saturation>122</saturation>
                        <lut_style>/luts/style.cube</lut_style>
                        <lut_intensity>0.5</lut_intensity>
                    </property>
                </area>
            </clip>
        </clips>
    </template>
</xmeml>"#;

    let project_xml =
        generate_project_file_xml(template_xml, "project-a", 1000).expect("project xml");

    assert!(project_xml.contains(r#"<area id="area-a" asset-id="asset-a" offset="0">"#));
    assert!(project_xml.contains("<whiteness>0.5</whiteness>"));
    assert!(project_xml.contains("<smoothing>0.25</smoothing>"));
    assert!(project_xml.contains("<saturation>122</saturation>"));
    assert!(project_xml.contains("<lut_style>/luts/style.cube</lut_style>"));
    assert!(project_xml.contains("<lut_intensity>0.5</lut_intensity>"));
    assert!(project_xml.contains("</property>\n                </area>"));
    assert!(!project_xml.contains("<source>"));
}

#[test]
fn generates_project_clips_with_default_clips_attributes() {
    let template_xml = r#"<xmeml version="5">
    <template id="template-a" name="Template A" version="1.0" timeunit="millisecond">
        <clips>
            <clip id="clip-a">
                <area id="area-a" asset-id="asset-a">
                    <source>
                        <duration>5000</duration>
                    </source>
                </area>
            </clip>
        </clips>
    </template>
</xmeml>"#;
    let project_xml =
        generate_project_file_xml(template_xml, "project-a", 1000).expect("project xml");

    assert!(project_xml.contains(r#"<clips id="clips" target-track="clips">"#));
    assert!(project_xml.contains(r#"id="area-a" asset-id="asset-a" offset="0""#));
}

#[test]
fn normalizes_template_resource_paths_to_absolute_paths() {
    let template_dir = PathBuf::from("/Users/aicut/templates/tpl");
    let assets_dir = template_dir.join("assets");
    let xml = r#"<template>
            <video>
                <demo-path>template/assets/template.mp4</demo-path>
            </video>
            <tracks>
                <track id="bg">
                    <filepath>common/background.mp4</filepath>
                </track>
            </tracks>
            <media-asset id="group-a">
                <default-asset>
                    <asset id="asset-a" filepath="template/assets/1.mp4" />
                </default-asset>
            </media-asset>
        </template>"#;

    let normalized = normalize_template_resource_paths(
        xml,
        &template_dir.to_string_lossy(),
        &assets_dir.to_string_lossy(),
        PathStyle::Unix,
    );

    assert!(normalized.contains(&format!(
        r#"filepath="{}""#,
        path_to_xml_filepath(&assets_dir.join("1.mp4").to_string_lossy(), PathStyle::Unix)
    )));
    assert!(normalized.contains(&format!(
        "<demo-path>{}</demo-path>",
        escape_xml_text(&path_to_xml_filepath(
            &assets_dir.join("template.mp4").to_string_lossy(),
            PathStyle::Unix
        ))
    )));
    assert!(normalized.contains(&format!(
        "<filepath>{}</filepath>",
        escape_xml_text(&path_to_xml_filepath(
            &assets_dir.join("common/background.mp4").to_string_lossy(),
            PathStyle::Unix
        ))
    )));

    assert!(!normalized.contains(r"/assets/common\background.mp4"));
    assert!(normalized.contains("/assets/common/background.mp4"));
}

#[test]
fn removes_windows_verbatim_prefix_from_xml_filepaths() {
    assert_eq!(
        path_to_xml_filepath(r"\\?\C:\aicut\project\1-80\assets\video.mp4", PathStyle::Windows),
        r"C:\aicut\project\1-80\assets\video.mp4"
    );
    assert_eq!(
        path_to_xml_filepath(r"\\?\UNC\server\share\video.mp4", PathStyle::Windows),
        r"\\server\share\video.mp4"
    );
}

#[test]
fn applies_first_template_subtitle_to_project_clip() {
    let template_xml = r#"<template>
        <clips id="clips" target-track="clips">
            <clip id="clip-a">
                <subtitle id="subtitle-a" absoluteStartTime="1000" duration="3000">
                    <default>默认标题</default>
                </subtitle>
            </clip>
            <clip id="clip-b">
                <subtitle id="subtitle-b"></subtitle>
            </clip>
        </clips>
    </template>"#;
    let project_xml = r#"<project>
        <clips id="clips" target-track="clips">
            <clip id="clip-a">
                <area id="area-a" asset-id="asset-a" offset="0" />
                <subtitle id="old-a" text="旧标题" />
            </clip>
            <clip id="clip-b">
                <subtitle id="old-b" text="旧标题 2" />
            </clip>
        </clips>
    </project>"#;
    let subtitle = find_first_template_subtitle(template_xml).expect("subtitle");
    let updated_xml =
        update_project_subtitle(project_xml, &subtitle, "新标题").expect("updated xml");

    assert!(updated_xml.contains(
        r#"<subtitle id="subtitle-a" text="新标题" absoluteStartTime="1000" duration="3000" />"#
    ));
    assert!(!updated_xml.contains("old-a"));
    assert!(!updated_xml.contains("old-b"));
    assert!(!updated_xml.contains("subtitle-b"));
}

#[test]
fn updates_project_template_subtitle_default_text() {
    let template_xml = r#"<template>
        <clips id="clips" target-track="clips">
            <clip id="clip-a">
                <subtitle id="subtitle-a">
                    <default>默认标题</default>
                </subtitle>
            </clip>
            <clip id="clip-b">
                <subtitle id="subtitle-b">
                    <default>其他标题</default>
                </subtitle>
            </clip>
        </clips>
    </template>"#;
    let subtitle = TemplateSubtitle {
        clip_id: "clip-a".to_string(),
        id: "subtitle-a".to_string(),
        absolute_start_time: None,
        duration: None,
    };
    let updated_xml =
        update_template_subtitle_default(template_xml, &subtitle, "新标题 & 内容")
            .expect("updated template xml");

    assert!(updated_xml.contains("<default>新标题 &amp; 内容</default>"));
    assert!(updated_xml.contains("<default>其他标题</default>"));
    assert!(!updated_xml.contains("<default>默认标题</default>"));
}

#[test]
fn updates_self_closing_project_template_subtitle_text() {
    let template_xml = r#"<template>
        <clips id="clips">
            <clip id="clip-a">
                <subtitle id="subtitle-a" text="" />
            </clip>
        </clips>
    </template>"#;
    let subtitle = TemplateSubtitle {
        clip_id: "clip-a".to_string(),
        id: "subtitle-a".to_string(),
        absolute_start_time: None,
        duration: None,
    };
    let updated_xml = update_template_subtitle_default(template_xml, &subtitle, "新标题")
        .expect("updated template xml");

    assert!(updated_xml.contains(r#"<subtitle id="subtitle-a" text="新标题" />"#));
}

#[test]
fn filters_fixed_clips_and_variable_top_videos_from_upload_xml() {
    let local_xml = r#"<xmeml><template>
        <tracks>
            <track id="overlay"><filepath>template/assets/top.mov</filepath></track>
            <track id="recording">
                <clip starttime="0" endtime="1000"><narration></narration><prompt></prompt><filepath>template/assets/recording-001.wav</filepath></clip>
                <clip starttime="2000" endtime="3000"><narration></narration><prompt></prompt><filepath>template/assets/recording-002.wav</filepath></clip>
            </track>
        </tracks>
        <clips id="clips" target-track="clips">
            <clip id="fixed-1" material-type="fixed">
                <top-video>template/assets/top-segment-001.mov</top-video>
                <subtitle id="fixed-subtitle"><default>本地字幕</default></subtitle>
            </clip>
            <clip id="variable-1" material-type="variable">
                <top-video>template/assets/top-segment-003.mov</top-video>
                <area id="area-1" asset-id="asset-1"><property><saturation>100</saturation></property></area>
            </clip>
            <clip id="fixed-2" material-type="fixed"><top-video>template/assets/top-segment-002.mov</top-video></clip>
            <clip id="variable-2" material-type="variable"><area id="area-2" asset-id="asset-2" /></clip>
        </clips>
    </template></xmeml>"#;

    let upload_xml = build_custom_template_upload_xml(local_xml).expect("build upload XML");

    assert!(!upload_xml.contains("fixed-1"));
    assert!(!upload_xml.contains("fixed-2"));
    assert!(!upload_xml.contains("fixed-subtitle"));
    assert!(!upload_xml.contains("<top-video>"));
    assert!(upload_xml.contains("variable-1"));
    assert!(upload_xml.contains("variable-2"));
    assert!(upload_xml.contains("<saturation>100</saturation>"));
    assert!(upload_xml.contains("template/assets/top.mov"));
    assert!(upload_xml.contains("template/assets/recording-001.wav"));
    assert!(upload_xml.contains("template/assets/recording-002.wav"));
    assert!(upload_xml.contains("<clip starttime=\"2000\" endtime=\"3000\">"));
    assert!(local_xml.contains("fixed-1"));
    assert!(local_xml.contains("top-segment-003.mov"));
}
