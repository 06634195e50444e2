use aicut::props::{normalize_project_asset_properties, update_template_asset_properties, ProjectAssetProperties};
use aicut::speed::adapt_template_asset_speeds;
use aicut::area::{collect_asset_generated_paths, remove_asset_area_property_element};
use aicut::edit::{
    clear_project_generatepaths, collect_project_asset_filepaths, update_project_asset_filepath,
    update_project_asset_generatepath, update_project_clip_area_offsets, update_project_clip_offsets,
    update_project_root_identity, ProjectAreaOffsetUpdate,
};
use std::collections::HashSet;

#[test]
fn adapts_each_area_speed_and_restores_original_after_longer_replacement() {
    let xml = r#"<template><clips><clip>
            <area id="a1" asset-id="asset-1"><source><duration>9000</duration></source><transform><speed>1</speed></transform></area>
            <area id="a2" asset-id="asset-1"><source><duration>7000</duration></source><transform><speed>0.8</speed></transform></area>
            <area id="a3" asset-id="asset-2"><source><duration>9000</duration></source><transform><speed>1</speed></transform></area>
        </clip></clips></template>"#;
    let (adapted_xml, adapted) =
        adapt_template_asset_speeds(xml, "asset-1", 8000).expect("adapt speeds");
    assert!(adapted);
    assert!(adapted_xml
        .contains(r#"<speed data-auto-slowdown="true" data-original-speed="1">0.888</speed>"#));
    assert!(adapted_xml.contains(
        r#"id="a2" asset-id="asset-1"><source><duration>7000</duration></source><transform><speed>0.8</speed>"#
    ));
    assert!(adapted_xml.contains(
        r#"id="a3" asset-id="asset-2"><source><duration>9000</duration></source><transform><speed>1</speed>"#
    ));

    let (restored_xml, still_adapted) =
        adapt_template_asset_speeds(&adapted_xml, "asset-1", 10000).expect("restore speeds");
    assert!(!still_adapted);
    assert_eq!(restored_xml, xml);
}

#[test]
fn adapts_multiple_short_areas_with_different_required_durations() {
    let xml = r#"<template><area id="a1" asset-id="asset-1"><source><duration>9000</duration></source><transform><speed>1</speed></transform></area><area id="a2" asset-id="asset-1"><source><duration>10000</duration></source><transform><speed>1</speed></transform></area></template>"#;
    let (updated, adapted) =
        adapt_template_asset_speeds(xml, "asset-1", 8000).expect("adapt speeds");
    assert!(adapted);
    assert!(updated.contains(">0.888</speed>"));
    assert!(updated.contains(">0.800</speed>"));
}

#[test]
fn creates_speed_when_transform_is_missing() {
    let xml = r#"<template><area id="a1" asset-id="asset-1"><source><duration>9000</duration></source><destination><width>1920</width></destination></area></template>"#;
    let (updated, adapted) =
        adapt_template_asset_speeds(xml, "asset-1", 8000).expect("adapt speed");
    assert!(adapted);
    assert!(updated.contains(
        r#"<transform><speed data-auto-slowdown="true" data-original-speed="1">0.888</speed></transform>"#
    ));
    assert!(updated.find("<transform>") < updated.find("<destination>"));
}

fn sample_properties(rotation: i64, generatepath: Option<String>) -> ProjectAssetProperties {
    ProjectAssetProperties {
        whiteness: 200_000,
        smoothing: 300_000,
        saturation: 122_000_000,
        skin_tone: -400_000,
        face_detect: 1,
        rotation,
        lut_style: "/resources/luts/自然清新质感.cube".to_string(),
        lut_intensity: 800_000,
        position_x: 480_000_000,
        position_y: 270_000_000,
        scale: 500_000,
        canvas_width: 960,
        canvas_height: 540,
        transform_origin: "center".to_string(),
        stabilization: false,
        one_click_beauty: false,
        generatepath,
    }
}

#[test]
fn appends_and_updates_properties_for_every_area_using_asset() {
    let template_xml = r#"<xmeml><template id="template-1"><clips>
            <clip id="clip-1">
                <area id="area-1" asset-id="asset-1">
                    <source><duration>1000</duration></source>
                </area>
            </clip>
            <clip id="clip-2">
                <area id="area-2" asset-id="asset-1">
                    <property><saturation>80.0</saturation></property>
                </area>
            </clip>
            <clip id="clip-3">
                <area id="area-3" asset-id="asset-2"><source><duration>1000</duration></source></area>
            </clip>
        </clips></template></xmeml>"#;
    let properties = sample_properties(-450_000_000, None);

    let properties =
        normalize_project_asset_properties(properties).expect("normalize asset properties");
    let updated = update_template_asset_properties(template_xml, "asset-1", &properties)
        .expect("update asset properties");
    let updated_again = update_template_asset_properties(&updated, "asset-1", &properties)
        .expect("update asset properties again");

    assert_eq!(updated.matches("<property>").count(), 2);
    assert_eq!(updated_again, updated);
    assert_eq!(updated.matches("<saturation>122.0</saturation>").count(), 2);
    assert_eq!(
        updated
            .matches("<lut_style>/resources/luts/自然清新质感.cube</lut_style>")
            .count(),
        2
    );
    assert_eq!(updated.matches("<rotation>-450.0</rotation>").count(), 2);
    assert!(!updated.contains("<rotation_direction>"));
    assert_eq!(updated.matches("<positionX>480.0</positionX>").count(), 2);
    assert_eq!(
        updated
            .matches("<one_click_beauty>false</one_click_beauty>")
            .count(),
        2
    );
    assert!(updated.contains(
        "<source><duration>1000</duration></source>\n                    <property>"
    ));
    assert!(updated.contains(
        "<area id=\"area-3\" asset-id=\"asset-2\"><source><duration>1000</duration></source></area>"
    ));
}

#[test]
fn expands_project_file_area_and_persists_generated_path_in_property() {
    let project_file_xml = r#"<project><clips><clip>
            <area id="area-1" asset-id="asset-1" offset="904" />
        </clip></clips></project>"#;
    let properties = sample_properties(
        15_000_000,
        Some("/project/generated/asset-1.mp4".to_string()),
    );

    let updated = update_template_asset_properties(project_file_xml, "asset-1", &properties)
        .expect("expand projectFile area");
    assert!(!updated.contains(r#"asset-id="asset-1" offset="904" />"#));
    assert!(updated.contains(r#"asset-id="asset-1" offset="904">"#));
    assert!(updated.contains("<generatepath>/project/generated/asset-1.mp4</generatepath>"));
    assert!(updated.contains("</property>\n            </area>"));
    assert_eq!(
        collect_asset_generated_paths(&updated, "asset-1")
            .into_iter()
            .collect::<HashSet<String>>(),
        HashSet::from(["/project/generated/asset-1.mp4".to_string()])
    );

    let reset = remove_asset_area_property_element(&updated, "asset-1", "generatepath")
        .expect("remove generated path property");
    assert!(!reset.contains("<generatepath>"));
    assert!(reset.contains("<saturation>122.0</saturation>"));
}

#[test]
fn clears_all_project_generatepaths_without_removing_other_properties() {
    let xml = r#"<xmeml>
    <asset id="asset-a" filepath="/assets/a.mp4" generatepath="/generated/a.mp4" />
    <area asset-id="asset-a">
        <property>
            <whiteness>0.5</whiteness>
            <generatepath>/generated/a.mp4</generatepath>
        </property>
    </area>
</xmeml>"#;

    let cleared = clear_project_generatepaths(xml).expect("clear generate paths");

    assert!(!cleared.contains("generatepath"));
    assert!(cleared.contains("filepath=\"/assets/a.mp4\""));
    assert!(cleared.contains("<whiteness>0.5</whiteness>"));
}

#[test]
fn updates_copied_project_root_identity() {
    let xml = r#"<xmeml><project id="26-638" name="原工程"><meta /></project></xmeml>"#;
    let updated = update_project_root_identity(xml, "26-639", "旅拍丽江假期_副本")
        .expect("update project identity");

    assert!(updated.contains(r#"<project id="26-639" name="旅拍丽江假期_副本">"#));
    assert!(!updated.contains("26-638"));
}

#[test]
fn updates_project_asset_filepath_by_asset_id() {
    let project_xml = r#"<project>
        <media-asset id="group-a">
            <asset id="asset-a" filepath="template/assets/1.mp4" />
            <asset id="asset-b" filepath="template/assets/2.mp4" />
        </media-asset>
    </project>"#;
    let updated_xml =
        update_project_asset_filepath(project_xml, "asset-b", "project/assets/demo.mp4")
            .expect("updated xml");

    assert!(updated_xml.contains(r#"id="asset-a" filepath="template/assets/1.mp4""#));
    assert!(updated_xml.contains(r#"id="asset-b" filepath="project/assets/demo.mp4""#));
}

#[test]
fn adds_updates_and_removes_project_asset_generatepath() {
    let template_xml = r#"<template><assets>
            <asset id="asset-a" filepath="/project/assets/a.mp4" />
            <asset id="asset-b" filepath="/project/assets/b.mp4" generatepath="/old.mp4" />
        </assets></template>"#;

    let added = update_project_asset_generatepath(
        template_xml,
        "asset-a",
        Some("/project/generated/a.mp4"),
    )
    .expect("add generatepath");
    assert!(added.contains(
        r#"id="asset-a" filepath="/project/assets/a.mp4" generatepath="/project/generated/a.mp4""#
    ));

    let updated =
        update_project_asset_generatepath(&added, "asset-b", Some("/project/generated/b.mp4"))
            .expect("update generatepath");
    assert!(updated.contains(r#"generatepath="/project/generated/b.mp4""#));

    let removed = update_project_asset_generatepath(&updated, "asset-b", None)
        .expect("remove generatepath");
    assert!(removed.contains(r#"id="asset-b" filepath="/project/assets/b.mp4" />"#));
    assert!(!removed.contains("/project/generated/b.mp4"));
}

#[test]
fn collects_project_asset_filepaths() {
    let project_xml = r#"<project>
        <media-asset id="group-a">
            <asset id="asset-a" filepath="project/assets/shared.mp4" />
            <asset id="asset-b" filepath="project/assets/shared.mp4" />
        </media-asset>
    </project>"#;
    let filepaths = collect_project_asset_filepaths(project_xml);

    assert_eq!(filepaths.len(), 1);
    assert!(filepaths.contains(&"project/assets/shared.mp4".to_string()));
}

#[test]
fn updates_all_project_clip_offsets_by_asset_id() {
    let project_xml = r#"<project>
        <clips id="clips" target-track="clips">
            <clip id="clip-a">
                <area id="area-a" asset-id="asset-a" offset="0" />
                <area id="area-b" asset-id="asset-b" offset="0" />
            </clip>
            <clip id="clip-b">
                <area id="area-c" asset-id="asset-a" offset="1200" />
            </clip>
        </clips>
    </project>"#;
    let updated_xml =
        update_project_clip_offsets(project_xml, "asset-a", 2500).expect("updated xml");

    assert!(updated_xml.contains(r#"id="area-a" asset-id="asset-a" offset="2500""#));
    assert!(updated_xml.contains(r#"id="area-b" asset-id="asset-b" offset="0""#));
    assert!(updated_xml.contains(r#"id="area-c" asset-id="asset-a" offset="2500""#));
}

#[test]
fn updates_project_clip_offsets_by_area_id() {
    let project_xml = r#"<project>
        <clips id="clips" target-track="clips">
            <clip id="clip-a">
                <area id="area-a" asset-id="asset-a" offset="0" />
                <area id="area-b" asset-id="asset-a" offset="0" />
                <area id="area-c" asset-id="asset-b" offset="0" />
            </clip>
        </clips>
    </project>"#;
    let area_offsets = vec![
        ProjectAreaOffsetUpdate {
            area_id: "area-a".to_string(),
            offset_ms: 10_000,
        },
        ProjectAreaOffsetUpdate {
            area_id: "area-b".to_string(),
            offset_ms: 12_000,
        },
    ];
    let updated_xml = update_project_clip_area_offsets(project_xml, "asset-a", &area_offsets)
        .expect("updated xml");

    assert!(updated_xml.contains(r#"id="area-a" asset-id="asset-a" offset="10000""#));
    assert!(updated_xml.contains(r#"id="area-b" asset-id="asset-a" offset="12000""#));
    assert!(updated_xml.contains(r#"id="area-c" asset-id="asset-b" offset="0""#));
}
