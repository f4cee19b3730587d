use inderes::json::Json;
use inderes::mcp::{
    extract_result, find_event_boundary, is_closed, is_success, parse_sse_event, read_answer,
    Answer, HttpRequest, McpClient, McpError, SseReader, SseStep,
};

fn j(s: &str) -> Json {
    Json::parse(s).expect("JSON")
}

// --- find_event_boundary -----------------------------------------------------------

#[test]
fn boundary_lf_only() {
    assert_eq!(find_event_boundary("a\n\nb"), Some(3));
}

#[test]
fn boundary_crlf() {
    assert_eq!(find_event_boundary("a\r\n\r\nb"), Some(5));
}

#[test]
fn boundary_none_when_incomplete() {
    assert_eq!(find_event_boundary(""), None);
    assert_eq!(find_event_boundary("hello"), None);
    assert_eq!(find_event_boundary("one\nline"), None);
    assert_eq!(find_event_boundary("half\r\n"), None);
}

#[test]
fn boundary_lf_wins_when_earlier() {
    assert_eq!(find_event_boundary("a\n\nbbb\r\n\r\n"), Some(3));
}

#[test]
fn boundary_consumer_can_split_correctly() {
    let buf = "data: one\r\n\r\ndata: two\r\n\r\n";
    let idx = find_event_boundary(buf).expect("boundary");
    let (event, rest) = buf.split_at(idx);
    assert_eq!(event, "data: one\r\n\r\n");
    assert_eq!(rest, "data: two\r\n\r\n");
}

#[test]
fn boundary_counts_bytes() {
    let buf = "ä…\n\nx";
    assert_eq!(find_event_boundary(buf), Some(7));
    assert_eq!(buf.split_at(7).1, "x");
    assert_eq!(find_event_boundary("a\r\n\r\nb\n\n"), Some(5));
}

// --- parse_sse_event ---------------------------------------------------------------

#[test]
fn parse_empty_returns_none() {
    assert!(parse_sse_event("").unwrap().is_none());
    assert!(parse_sse_event("event: message\n").unwrap().is_none());
    assert!(parse_sse_event(": keep-alive comment\n").unwrap().is_none());
}

#[test]
fn parse_single_line_data() {
    let v = parse_sse_event("data: {\"id\":1,\"result\":\"ok\"}")
        .unwrap()
        .unwrap();
    assert_eq!(v.get("id").and_then(|v| v.as_i64()), Some(1));
    assert_eq!(v.get("result").and_then(|v| v.as_str()), Some("ok"));
}

#[test]
fn parse_strips_single_leading_space_only() {
    let v = parse_sse_event("data:  \" preserved\"").unwrap().unwrap();
    assert_eq!(v.as_str(), Some(" preserved"));
}

#[test]
fn parse_accepts_no_space_after_colon() {
    let v = parse_sse_event("data:\"tight\"").unwrap().unwrap();
    assert_eq!(v.as_str(), Some("tight"));
}

#[test]
fn parse_multiline_data_joins_with_newlines() {
    let event = "data: {\ndata:   \"id\": 1\ndata: }";
    let v = parse_sse_event(event).unwrap().unwrap();
    assert_eq!(v.get_i64("id"), Some(1));
}

#[test]
fn parse_ignores_unknown_fields() {
    let event = "event: message\nid: 42\nretry: 100\n: comment\ndata: {\"hello\":\"world\"}";
    let v = parse_sse_event(event).unwrap().unwrap();
    assert_eq!(v.get_str("hello"), Some("world"));
}

#[test]
fn parse_reports_invalid_json() {
    let err = parse_sse_event("data: {not json").unwrap_err();
    let msg = err.message();
    assert!(msg.contains("parsing SSE data as JSON"), "got: {msg}");
    assert!(msg.starts_with("parsing SSE data as JSON: {not json: "));
}

// --- events in pieces ----------------------------------------------------------------

#[test]
fn chunked_stream_skips_notifications_and_returns_response() {
    let chunks = [
        "event: message\ndata: {\"jsonrpc\":\"2.0\",\"method\":\"notifications/progress\",\"params\":{}}\n\n",
        "data: {\"jsonrpc\":\"2.0\",\"id\":1,\"result\":{\"content\":[{\"type\":\"text\",\"text\":\"hi\"}]}}\n\n",
    ];
    let expected_id: i64 = 1;
    let mut reader = SseReader::new(expected_id);
    let mut found: Option<Json> = None;
    for chunk in chunks {
        match reader.push(chunk.as_bytes()) {
            SseStep::More => {}
            SseStep::Finished(r) => {
                found = Some(r.unwrap());
                break;
            }
        }
    }
    let result = found.expect("response with id=1 should be found");
    let content = result.get_array("content").unwrap();
    assert_eq!(content[0].get_str("type"), Some("text"));
    assert_eq!(content[0].get_str("text"), Some("hi"));
}

fn finished(step: SseStep) -> Result<Json, McpError> {
    match step {
        SseStep::Finished(r) => r,
        SseStep::More => panic!("not finished"),
    }
}

#[test]
fn a_stream_may_be_cut_anywhere() {
    let stream = "data: {\"id\":9,\"result\":1}\r\n\r\n\r\ndata: {\"id\":2,\r\ndata: \"result\":\"ok\"}\r\n\r\n";
    for cut in 0..stream.len() {
        let mut reader = SseReader::new(2);
        let mut last = None;
        for piece in [&stream[..cut], &stream[cut..]] {
            if let SseStep::Finished(r) = reader.push(piece.as_bytes()) {
                last = Some(r.unwrap());
                break;
            }
        }
        assert_eq!(last.expect("answer").as_str(), Some("ok"), "cut at {cut}");
    }
}

#[test]
fn a_stream_may_come_one_character_at_a_time() {
    let stream = "\r\n: hello\r\n\r\n\r\n\ndata: {\"id\":9}\n\n\r\n\r\ndata: {\"id\":2,\r\ndata: \"result\":\"ok\"}\n\n";
    let mut whole = SseReader::new(2);
    assert_eq!(finished(whole.push(stream.as_bytes())).unwrap().as_str(), Some("ok"));
    let mut reader = SseReader::new(2);
    let mut last = None;
    for byte in stream.as_bytes() {
        if let SseStep::Finished(r) = reader.push(&[*byte]) {
            last = Some(r.unwrap());
        }
    }
    assert_eq!(last.expect("answer").as_str(), Some("ok"));
}

#[test]
fn line_ends_that_come_late_belong_to_the_event_before() {
    let mut reader = SseReader::new(2);
    for piece in ["data: {\"id\":9}\n\n", "\n\n\r\n", "\r\n", "data: {\"id\":2,\"result\":"] {
        assert!(matches!(reader.push(piece.as_bytes()), SseStep::More));
    }
    assert_eq!(finished(reader.push(b"7}\n\n")).unwrap().as_i64(), Some(7));
}

#[test]
fn the_first_answer_counts() {
    let mut reader = SseReader::new(2);
    let both = b"data: {\"id\":2,\"result\":1}\n\ndata: {\"id\":2,\"result\":3}\n\ndata: nope\n\n";
    assert_eq!(finished(reader.push(both)).unwrap().as_i64(), Some(1));
}

#[test]
fn a_stream_stops_at_data_that_are_no_json() {
    let mut reader = SseReader::new(1);
    let e = finished(reader.push(b"data: nope\n\n")).unwrap_err();
    assert!(e.message().starts_with("parsing SSE data as JSON: nope: "));
}

#[test]
fn a_stream_that_ends_early_says_for_which_request() {
    let mut reader = SseReader::new(5);
    assert!(matches!(reader.push(b"data: {\"id\":4,\"result\":1}\n\n"), SseStep::More));
    assert_eq!(
        reader.end().message(),
        "SSE stream ended without a response for id 5"
    );
}

#[test]
fn bytes_that_are_no_text_are_replaced() {
    let mut reader = SseReader::new(1);
    let mut bytes = b"data: {\"id\":1,\"result\":\"x".to_vec();
    bytes.push(0xff);
    bytes.extend_from_slice(b"y\"}\n\n");
    let v = finished(reader.push(&bytes)).unwrap();
    assert_eq!(v.as_str(), Some("x\u{fffd}y"));
}

// --- results -------------------------------------------------------------------------

#[test]
fn a_result_needs_the_right_number_and_no_error() {
    let ok = extract_result(&j(r#"{"id": 3, "result": {"a": 1}}"#), 3).unwrap();
    assert_eq!(ok.to_text(), "{\"a\":1}");

    let e = extract_result(&j(r#"{"id": 3, "error": {"code": -32601, "message": "no"}}"#), 3);
    assert_eq!(e.unwrap_err().message(), "MCP error -32601: no");
    let e = extract_result(&j(r#"{"id": 3, "error": 1, "result": 1}"#), 3);
    assert_eq!(e.unwrap_err().message(), "MCP error 0: ");

    let e = extract_result(&j(r#"{"id": 4, "result": 1}"#), 3);
    assert_eq!(
        e.unwrap_err().message(),
        "MCP id mismatch: expected 3, got Some(4)"
    );
    let e = extract_result(&j(r#"{"result": 1}"#), 3);
    assert_eq!(
        e.unwrap_err().message(),
        "MCP id mismatch: expected 3, got None"
    );
    let e = extract_result(&j(r#"{"id": 3}"#), 3);
    assert_eq!(
        e.unwrap_err().message(),
        "MCP response missing `result`: {\"id\":3}"
    );
}

#[test]
fn an_answer_that_is_no_json_is_an_error() {
    assert_eq!(read_answer("{\"id\":1,\"result\":[]}", 1).unwrap().to_text(), "[]");
    let e = read_answer("<html>", 1).unwrap_err().message();
    assert!(
        e.starts_with("parsing JSON-RPC response: error decoding response body: expected value"),
        "got: {e}"
    );
    assert_eq!(
        McpError::Refused("tools/call".into(), "401 Unauthorized".into(), "no".into()).message(),
        "MCP tools/call returned 401 Unauthorized: no"
    );
}

// --- requests ------------------------------------------------------------------------

fn body(r: &HttpRequest) -> String {
    r.body.as_ref().expect("body").to_text()
}

fn header<'a>(r: &'a HttpRequest, name: &str) -> Option<&'a str> {
    r.headers
        .iter()
        .find(|(k, _)| k == name)
        .map(|(_, v)| v.as_str())
}

#[test]
fn requests_are_numbered_and_carry_the_session() {
    let mut c = McpClient::new("https://mcp.example/", "tok");
    assert!(c.can_request());
    let (id, init) = c.initialize("1.2.3");
    assert_eq!(id, 1);
    assert_eq!(init.url, "https://mcp.example/");
    assert_eq!(init.bearer, "tok");
    assert_eq!(
        body(&init),
        r#"{"id":1,"jsonrpc":"2.0","method":"initialize","params":{"capabilities":{},"clientInfo":{"name":"inderes-cli","version":"1.2.3"},"protocolVersion":"2025-03-26"}}"#
    );
    assert_eq!(
        header(&init, "Accept"),
        Some("application/json, text/event-stream")
    );
    assert_eq!(header(&init, "Content-Type"), Some("application/json"));
    assert_eq!(header(&init, "MCP-Protocol-Version"), Some("2025-03-26"));
    assert_eq!(header(&init, "Mcp-Session-Id"), None);

    assert_eq!(
        c.answer(200, Some("sess"), "application/json; charset=utf-8"),
        Answer::Whole
    );
    let note = c.initialized();
    assert_eq!(
        body(&note),
        r#"{"jsonrpc":"2.0","method":"notifications/initialized","params":{}}"#
    );
    assert_eq!(header(&note, "Mcp-Session-Id"), Some("sess"));

    let (id, call) = c.call_tool("t", j(r#"{"a": 1}"#));
    assert_eq!(id, 2);
    assert_eq!(
        body(&call),
        r#"{"id":2,"jsonrpc":"2.0","method":"tools/call","params":{"arguments":{"a":1},"name":"t"}}"#
    );
    assert_eq!(c.answer(200, None, "text/event-stream"), Answer::Stream);
    let (id, list) = c.list_tools();
    assert_eq!(id, 3);
    assert_eq!(
        body(&list),
        r#"{"id":3,"jsonrpc":"2.0","method":"tools/list","params":{}}"#
    );
    assert_eq!(header(&list, "Mcp-Session-Id"), Some("sess"));
}

#[test]
fn a_session_is_closed_once() {
    let mut c = McpClient::new("https://mcp.example/", "tok");
    assert!(c.close().is_none());
    assert_eq!(c.answer(404, Some("s"), "text/event-stream"), Answer::Refused);
    let r = c.close().expect("request");
    assert_eq!(r.headers, vec![("Mcp-Session-Id".to_string(), "s".to_string())]);
    assert_eq!(r.bearer, "tok");
    assert!(r.body.is_none());
    assert!(c.close().is_none());
    assert!(is_closed(204) && is_closed(404) && !is_closed(500));
    assert!(is_success(200) && is_success(299) && !is_success(300) && !is_success(199));
}
