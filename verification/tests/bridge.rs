use aicut::bridge::{parse_pr_bridge_http_request, pr_bridge_expected_length, pr_bridge_read_step};
use aicut::export::{
    check_pr_template_export_request, check_pr_template_file, pr_template_export_event,
    PrTemplateExportRequest,
};
use aicut::misc::{http_header_end, pr_bridge_info};
use aicut::reply::{
    pr_bridge_accepted_response, pr_bridge_error_response, pr_bridge_http_response,
    pr_bridge_read_error_response, pr_bridge_route, push_pr_bridge_export,
    remember_pr_bridge_event, take_pr_bridge_exports, PrBridgeRoute,
};
use aicut::resource::PathStyle;
use std::collections::VecDeque;

fn export_request(session: &str, content_type: &str, body: &str) -> Vec<u8> {
    format!(
        "POST /v1/template-exports?x=1 HTTP/1.1\r\nHost: 127.0.0.1\r\nX-AICut-Protocol: 1\r\nX-AICut-Session: {session}\r\nContent-Type: {content_type}\r\nContent-Length: {}\r\n\r\n{body}",
        body.len()
    )
    .into_bytes()
}

#[test]
fn finds_the_end_of_the_request_headers() {
    assert_eq!(http_header_end(b"GET / HTTP/1.1\r\n\r\nbody"), Some(14));
    assert_eq!(http_header_end(b"GET / HTTP/1.1\r\n"), None);
}

#[test]
fn reads_the_expected_length_from_the_headers() {
    let request = export_request("s-1", "application/json", "{\"a\":1}");
    let header_end = http_header_end(&request).unwrap();
    assert_eq!(
        pr_bridge_expected_length(&request),
        Ok(Some(header_end + 4 + 7))
    );
    assert_eq!(pr_bridge_expected_length(b"GET / HTTP/1.1\r\n"), Ok(None));
    assert_eq!(
        pr_bridge_expected_length(b"POST / HTTP/1.1\r\ncontent-length: ten\r\n\r\n"),
        Err("invalid content-length".to_string())
    );
    assert_eq!(
        pr_bridge_expected_length(b"POST / HTTP/1.1\r\nX: \xff\r\n\r\n"),
        Err("request headers are not UTF-8".to_string())
    );
}

#[test]
fn stops_reading_when_the_request_is_complete_or_too_large() {
    let request = export_request("s-1", "application/json", "{}");
    let total = request.len();
    assert_eq!(
        pr_bridge_read_step(&request[..10], None),
        Ok((None, false))
    );
    assert_eq!(pr_bridge_read_step(&request, None), Ok((Some(total), true)));
    assert_eq!(
        pr_bridge_read_step(&request[..total - 1], None),
        Ok((Some(total), false))
    );
    let huge = vec![b'a'; 64 * 1024 + 1];
    assert_eq!(
        pr_bridge_read_step(&huge, None),
        Err("request is too large".to_string())
    );
}

#[test]
fn parses_method_path_headers_and_body() {
    let request = export_request("s-1", "application/json", "{\"eventId\":\"e\"}");
    let parsed = parse_pr_bridge_http_request(&request).expect("parse request");
    assert_eq!(parsed.method, "POST");
    assert_eq!(parsed.path, "/v1/template-exports");
    assert_eq!(parsed.body, b"{\"eventId\":\"e\"}".to_vec());
    assert!(parsed
        .headers
        .iter()
        .any(|(name, value)| name == "x-aicut-session" && value == "s-1"));
}

#[test]
fn reports_malformed_requests() {
    assert_eq!(
        parse_pr_bridge_http_request(b"GET / HTTP/1.1\r\n").err(),
        Some("incomplete headers".to_string())
    );
    assert_eq!(
        parse_pr_bridge_http_request(b"   \r\n\r\n").err(),
        Some("missing method".to_string())
    );
    assert_eq!(
        parse_pr_bridge_http_request(b"GET\r\n\r\n").err(),
        Some("missing path".to_string())
    );
    assert_eq!(
        parse_pr_bridge_http_request(b"POST /x HTTP/1.1\r\nContent-Length: 5\r\n\r\nab").err(),
        Some("incomplete request body".to_string())
    );
    assert_eq!(
        parse_pr_bridge_http_request(b"POST /x HTTP/1.1\r\nContent-Length: x\r\n\r\n").err(),
        Some("invalid content-length".to_string())
    );
}

#[test]
fn routes_requests_by_method_path_and_headers() {
    let parse = |bytes: &[u8]| parse_pr_bridge_http_request(bytes).expect("parse");
    let options = parse(b"OPTIONS /anything HTTP/1.1\r\n\r\n");
    assert!(pr_bridge_route(&options, "s-1") == PrBridgeRoute::Preflight);
    let health = parse(b"GET /v1/health HTTP/1.1\r\n\r\n");
    assert!(pr_bridge_route(&health, "s-1") == PrBridgeRoute::Health);
    let other = parse(b"GET /v1/template-exports HTTP/1.1\r\n\r\n");
    assert!(pr_bridge_route(&other, "s-1") == PrBridgeRoute::NotFound);
    let export = parse(&export_request("s-1", "Application/JSON; charset=utf-8", "{}"));
    assert!(pr_bridge_route(&export, "s-1") == PrBridgeRoute::Export);
    assert!(pr_bridge_route(&export, "s-2") == PrBridgeRoute::Unauthorized);
    let text = parse(&export_request("s-1", "text/plain", "{}"));
    assert!(pr_bridge_route(&text, "s-1") == PrBridgeRoute::UnsupportedContentType);
}

#[test]
fn frames_responses_with_the_byte_length_of_the_body() {
    let response = pr_bridge_http_response(200, "{\"名\":1}");
    assert!(response.starts_with("HTTP/1.1 200 OK\r\n"));
    assert!(response.contains("\r\nContent-Length: 9\r\n"));
    assert!(response.ends_with("\r\nConnection: close\r\n\r\n{\"名\":1}"));
    assert!(pr_bridge_http_response(204, "").starts_with("HTTP/1.1 204 No Content\r\n"));
    assert!(pr_bridge_http_response(599, "").starts_with("HTTP/1.1 599 Internal Server Error\r\n"));
}

#[test]
fn answers_read_errors_and_exports_with_json() {
    let too_large = pr_bridge_read_error_response("request is too large");
    assert!(too_large.starts_with("HTTP/1.1 413 Payload Too Large\r\n"));
    assert!(too_large.ends_with("{\"error\":\"request is too large\",\"ok\":false}"));
    let bad = pr_bridge_read_error_response("missing path");
    assert!(bad.starts_with("HTTP/1.1 400 Bad Request\r\n"));
    let quoted = pr_bridge_error_response(422, "bad \"id\"");
    assert!(quoted.ends_with("{\"error\":\"bad \\\"id\\\"\",\"ok\":false}"));
    let accepted = pr_bridge_accepted_response(true, "e-1");
    assert!(accepted
        .ends_with("{\"accepted\":true,\"duplicate\":true,\"eventId\":\"e-1\",\"ok\":true}"));
}

#[test]
fn answers_a_repeated_export_as_duplicate() {
    let mut processed = Vec::new();
    assert!(!remember_pr_bridge_event(&mut processed, "e-1"));
    assert!(remember_pr_bridge_event(&mut processed, "e-1"));
    assert!(!remember_pr_bridge_event(&mut processed, "e-2"));
    assert_eq!(processed, vec!["e-1".to_string(), "e-2".to_string()]);
}

#[test]
fn forgets_remembered_exports_when_full() {
    let mut processed: Vec<String> = (0..256).map(|i| format!("e-{i}")).collect();
    assert!(remember_pr_bridge_event(&mut processed, "e-5"));
    assert_eq!(processed.len(), 256);
    assert!(!remember_pr_bridge_event(&mut processed, "new"));
    assert_eq!(processed, vec!["new".to_string()]);
}

#[test]
fn keeps_at_most_sixteen_pending_exports() {
    let mut inbox = VecDeque::new();
    for i in 0..20 {
        let pending = push_pr_bridge_export(&mut inbox, i);
        assert_eq!(pending, (i + 1).min(16) as usize);
    }
    let taken = take_pr_bridge_exports(&mut inbox);
    assert_eq!(taken, (4..20).collect::<Vec<_>>());
    assert!(inbox.is_empty());
}

fn request(event_id: &str, template_path: &str) -> PrTemplateExportRequest {
    PrTemplateExportRequest {
        event_id: event_id.to_string(),
        plugin_version: Some("1.2".to_string()),
        exported_at: None,
        template_path: template_path.to_string(),
    }
}

#[test]
fn checks_export_requests_before_reading_files() {
    assert_eq!(
        check_pr_template_export_request(&request("  e-1 ", " /p/template.xml "), PathStyle::Unix),
        Ok(("e-1".to_string(), "/p/template.xml".to_string()))
    );
    assert_eq!(
        check_pr_template_export_request(&request("  ", "/p/template.xml"), PathStyle::Unix),
        Err("eventId is invalid".to_string())
    );
    let long_id = "好".repeat(43);
    assert_eq!(
        check_pr_template_export_request(&request(&long_id, "/p/template.xml"), PathStyle::Unix),
        Err("eventId is invalid".to_string())
    );
    assert_eq!(
        check_pr_template_export_request(&request("e", "p/template.xml"), PathStyle::Unix),
        Err("templatePath must be absolute".to_string())
    );
    assert_eq!(
        check_pr_template_export_request(&request("e", "/p/other.xml"), PathStyle::Unix),
        Err("templatePath must point to template.xml".to_string())
    );
    assert_eq!(
        check_pr_template_export_request(&request("e", "C:\\p\\template.xml"), PathStyle::Windows),
        Ok(("e".to_string(), "C:\\p\\template.xml".to_string()))
    );
}

#[test]
fn checks_the_exported_file_and_its_content() {
    assert_eq!(
        check_pr_template_file(false, 1),
        Err("templatePath is not a file".to_string())
    );
    assert_eq!(
        check_pr_template_file(true, 8 * 1024 * 1024 + 1),
        Err("template.xml is too large".to_string())
    );
    assert_eq!(check_pr_template_file(true, 8 * 1024 * 1024), Ok(()));
    let event = pr_template_export_event(
        request(" e-1 ", "/p/template.xml"),
        "/p".to_string(),
        "<template id=\"t\" />".to_string(),
        PathStyle::Unix,
    )
    .ok()
    .expect("event");
    assert_eq!(event.event_id, "e-1");
    assert_eq!(event.template_path, "/p/template.xml");
    assert_eq!(event.project_root, "/p");
    assert_eq!(event.plugin_version.as_deref(), Some("1.2"));
    assert_eq!(
        pr_template_export_event(
            request("e-1", "/p/template.xml"),
            "/p".to_string(),
            "<project />".to_string(),
            PathStyle::Unix,
        )
        .err(),
        Some("template.xml does not contain a template node".to_string())
    );
}

#[test]
fn describes_the_bridge() {
    let info = pr_bridge_info("s-1", "/out".to_string());
    assert_eq!(info.service, "aicut-template-bridge");
    assert_eq!(info.protocol_version, 1);
    assert_eq!(info.page, "create-template");
    assert_eq!(info.session_id, "s-1");
    assert_eq!(info.port, 32145);
    assert_eq!(info.output_directory, "/out");
}

#[test]
fn escapes_reply_text_as_json() {
    let r = pr_bridge_error_response(500, "a\\b\n\t\r\u{8}\u{c}\u{1}\u{1f} 名/\u{7f}");
    assert!(r.ends_with(
        "{\"error\":\"a\\\\b\\n\\t\\r\\b\\f\\u0001\\u001f 名/\u{7f}\",\"ok\":false}"
    ));
    let body = "{\"accepted\":true,\"duplicate\":false,\"eventId\":\"\\\"x\\\"\",\"ok\":true}";
    let accepted = pr_bridge_accepted_response(false, "\"x\"");
    assert!(accepted.ends_with(body));
    assert!(accepted.contains(&format!("Content-Length: {}\r\n", body.len())));
}
