use inderes::json::Json;
use inderes::render::{print_result, render_result, result_error_text, structured_content};

fn j(s: &str) -> Json {
    Json::parse(s).expect("JSON")
}

fn render(result: &Json) -> String {
    let mut out = String::new();
    render_result(result, &mut out);
    out
}

// --- structured_content / result_error_text ------------------------------------------

#[test]
fn structured_content_prefers_structured_field() {
    let result = j(r#"{
        "content": [{"type": "text", "text": "{\"ignored\":true}"}],
        "structuredContent": {"posts": [], "pageInfo": {"hasNextPage": false}}
    }"#);
    let sc = structured_content(&result).unwrap();
    assert!(sc.get("pageInfo").is_some());
    assert!(sc.get("ignored").is_none());
}

#[test]
fn structured_content_falls_back_to_parsing_text() {
    let result = j(r#"{"content": [{"type": "text", "text": "{\"topics\":[{\"id\":1}]}"}]}"#);
    let sc = structured_content(&result).unwrap();
    assert_eq!(sc.get_array("topics").unwrap()[0].get_i64("id"), Some(1));
}

#[test]
fn structured_content_errors_without_structured_or_text() {
    let err = structured_content(&j(r#"{"content": []}"#)).unwrap_err();
    let msg = err.message();
    assert!(msg.contains("no structuredContent"), "got: {msg}");
}

#[test]
fn structured_content_takes_the_first_text() {
    let result = j(r#"{"content": [
        {"type": "image", "text": "1"}, {"type": "text"}, {"type": "text", "text": "2"},
        {"type": "text", "text": "3"}
    ]}"#);
    assert_eq!(structured_content(&result).unwrap().as_i64(), Some(2));
    let e = structured_content(&j(r#"{"content": [{"type": "text", "text": "{"}]}"#)).unwrap_err();
    assert!(e.message().starts_with("parsing MCP text content as JSON: EOF"));
    assert!(structured_content(&j("[]")).is_err());
}

#[test]
fn result_error_text_some_only_on_is_error() {
    assert_eq!(result_error_text(&j(r#"{"content": []}"#)), None);
    let msg = result_error_text(&j(r#"{
        "isError": true,
        "content": [{"type": "text", "text": "tool blew up"}]
    }"#));
    assert_eq!(msg.as_deref(), Some("tool blew up"));
    assert_eq!(result_error_text(&j(r#"{"isError": "true"}"#)), None);
}

// --- render_result / render_content_item -------------------------------------------------

#[test]
fn render_text_content_emits_body() {
    let out = render(&j(r#"{"content": [{"type": "text", "text": "hello world"}]}"#));
    assert_eq!(out.trim(), "hello world");
}

#[test]
fn render_multiple_text_items_prints_each() {
    let out = render(&j(r#"{
        "content": [
            {"type": "text", "text": "first"},
            {"type": "text", "text": "second"}
        ]
    }"#));
    assert!(out.contains("first"));
    assert!(out.contains("second"));
    assert_eq!(out, "first\nsecond\n");
}

#[test]
fn render_image_content_prints_placeholder_with_mime_and_size() {
    let b64 = "AAAA".repeat(1000);
    let out = render(&j(&format!(
        "{{\"content\": [{{\"type\": \"image\", \"mimeType\": \"image/png\", \"data\": \"{b64}\"}}]}}"
    )));
    assert!(out.contains("[image:"));
    assert!(out.contains("image/png"));
    assert!(out.contains("4000 bytes"));
    assert!(!out.contains("AAAA"));
    assert_eq!(
        out,
        "[image: image/png, 4000 bytes base64 — pass --json for raw data]\n"
    );
}

#[test]
fn render_audio_content_prints_placeholder() {
    let out = render(&j(
        r#"{"content": [{"type": "audio", "mimeType": "audio/wav", "data": "XXXX"}]}"#,
    ));
    assert!(out.contains("[audio:"));
    assert!(out.contains("audio/wav"));
}

#[test]
fn render_resource_with_text_inlines_content() {
    let out = render(&j(r#"{
        "content": [{
            "type": "resource",
            "resource": {
                "uri": "file:///tmp/x.txt",
                "mimeType": "text/plain",
                "text": "body contents"
            }
        }]
    }"#));
    assert!(out.contains("[resource: file:///tmp/x.txt"));
    assert!(out.contains("text/plain"));
    assert!(out.contains("body contents"));
    assert_eq!(
        out,
        "[resource: file:///tmp/x.txt, text/plain]\nbody contents\n"
    );
}

#[test]
fn render_resource_with_blob_prints_binary_placeholder() {
    let out = render(&j(r#"{
        "content": [{
            "type": "resource",
            "resource": {
                "uri": "file:///tmp/x.bin",
                "blob": "BASE64DATA"
            }
        }]
    }"#));
    assert!(out.contains("[resource: file:///tmp/x.bin (binary)"));
    assert!(!out.contains("BASE64DATA"));
}

#[test]
fn render_unknown_content_type_prints_passthrough_hint() {
    let out = render(&j(r#"{"content": [{"type": "future-type", "whatever": 42}]}"#));
    assert!(out.contains("[future-type content"));
    assert!(out.contains("--json"));
}

#[test]
fn render_empty_content_array_prints_placeholder() {
    let out = render(&j(r#"{"content": []}"#));
    assert_eq!(out.trim(), "(empty result)");
}

#[test]
fn render_without_content_key_falls_back_to_pretty_json() {
    let out = render(&j(r#"{"foo": "bar"}"#));
    assert!(out.contains("\"foo\""));
    assert!(out.contains("\"bar\""));
    assert_eq!(out, "{\n  \"foo\": \"bar\"\n}\n");
}

#[test]
fn render_fills_in_what_an_item_lacks() {
    let out = render(&j(r#"{"content": [
        {"type": "image"}, {"type": "resource"}, {"type": "resource", "resource": {"text": "t"}},
        {"type": "text", "text": 3}, {"no": "type"}
    ]}"#));
    assert_eq!(
        out,
        "[image: ?, 0 bytes base64 — pass --json for raw data]\n[resource: ?]\n[resource: ?]\nt\n"
    );
}

#[test]
fn render_counts_bytes_of_media_data() {
    let out = render(&j(r#"{"content": [{"type": "audio", "data": "äö"}]}"#));
    assert!(out.contains(" 4 bytes"), "got: {out}");
}

// --- print_result wrapper (isError branch) --------------------------------------------------

#[test]
fn print_result_surfaces_is_error() {
    let mut out = String::new();
    let err = print_result(
        &j(r#"{
            "content": [{"type": "text", "text": "tool said no"}],
            "isError": true
        }"#),
        false,
        &mut out,
    )
    .unwrap_err();
    assert!(err.message().contains("isError=true"));
    assert_eq!(out, "tool said no\n");
}

#[test]
fn print_result_json_mode_does_not_consult_is_error() {
    let mut out = String::new();
    let res = print_result(
        &j(r#"{
            "content": [{"type": "text", "text": "ok"}],
            "isError": true
        }"#),
        true,
        &mut out,
    );
    assert!(res.is_ok(), "--json should not fail on isError");
    assert!(out.contains("\"isError\": true"));
}
