use aicut::misc::{composer_step_status, parse_content_range, sha256_fingerprint, ParsedContentRange};
use aicut::paths::{sanitize_custom_template_key, sanitize_manual_filename};

#[test]
fn parses_satisfied_content_range() {
    assert_eq!(
        parse_content_range("bytes 1024-2047/4096"),
        Some(ParsedContentRange {
            start: Some(1024),
            end: Some(2047),
            total: Some(4096),
        })
    );
}

#[test]
fn parses_unsatisfied_content_range() {
    assert_eq!(
        parse_content_range("bytes */4096"),
        Some(ParsedContentRange {
            start: None,
            end: None,
            total: Some(4096),
        })
    );
}

#[test]
fn rejects_invalid_content_range() {
    assert_eq!(parse_content_range("1024-2047/4096"), None);
    assert_eq!(parse_content_range("bytes invalid/4096"), None);
}

#[test]
fn maps_composer_steps_to_display_statuses() {
    let expected = [
        "初始化",
        "预处理片段",
        "合成画中画",
        "合并转场",
        "构建最终视频",
        "添加字幕",
        "混流音频",
        "合成完成",
    ];

    for (step, status) in expected.into_iter().enumerate() {
        assert_eq!(composer_step_status(step as i32), status);
    }
    assert_eq!(composer_step_status(-1), "正在合成视频...");
    assert_eq!(composer_step_status(8), "正在合成视频...");
}

#[test]
fn sanitizes_local_template_directory_key() {
    assert_eq!(
        sanitize_custom_template_key("旅行模板_1789459200000"),
        "旅行模板_1789459200000"
    );
    assert_eq!(
        sanitize_custom_template_key("旅行/模板:第一版_1789459200000"),
        "旅行_模板_第一版_1789459200000"
    );
}

#[test]
fn decodes_and_sanitizes_manual_download_filename() {
    assert_eq!(
        sanitize_manual_filename(
            "AICut%E5%AE%A2%E6%88%B7%E7%AB%AF%E4%BD%BF%E7%94%A8%E6%89%8B%E5%86%8C.docx"
        ),
        "AICut客户端使用手册.docx"
    );
    assert_eq!(
        sanitize_manual_filename("../unsafe%2Fmanual.docx"),
        "manual.docx"
    );
    assert_eq!(sanitize_manual_filename("..."), "AICut使用手册.docx");
}

#[test]
fn hashes_file_content_as_first_32_sha256_hex_characters() {
    assert_eq!(
        sha256_fingerprint(b"abc"),
        "ba7816bf8f01cfea414140de5dae2223"
    );
}

#[test]
fn sanitised_names_and_keys_are_stable() {
    for raw in ["旅行/模板:第一版_1789459200000", "a b*c", "", "template", "..."] {
        let key = sanitize_custom_template_key(raw);
        assert_eq!(sanitize_custom_template_key(&key), key);
    }
    for raw in ["tpl 1", "", "x/y\\z", "名字"] {
        let name = aicut::paths::sanitize_name(raw);
        assert_eq!(aicut::paths::sanitize_name(&name), name);
    }
    assert_eq!(aicut::paths::sanitize_name(""), "template");
}

#[test]
fn fingerprints_a_stream_fed_in_chunks_as_a_whole() {
    let mut stream = aicut::misc::Sha256Stream::new();
    stream.update(b"a");
    stream.update(b"");
    stream.update(b"bc");
    let streamed = aicut::misc::stream_fingerprint(stream);
    assert_eq!(streamed, "ba7816bf8f01cfea414140de5dae2223");
    assert_eq!(streamed, aicut::misc::sha256_fingerprint(b"abc"));
    let empty = aicut::misc::stream_fingerprint(aicut::misc::Sha256Stream::new());
    assert_eq!(empty, aicut::misc::sha256_fingerprint(b""));
}

#[test]
fn decodes_percent_escapes_as_utf8() {
    assert_eq!(aicut::paths::decode_percent_encoded("a%41%2f%zz%4"), "aA/%zz%4");
    assert_eq!(aicut::paths::decode_percent_encoded("%E4%BD%A0"), "你");
    assert_eq!(aicut::paths::decode_percent_encoded("%FF"), "\u{FFFD}");
    assert_eq!(aicut::paths::decode_percent_encoded("plain"), "plain");
}
