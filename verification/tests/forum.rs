use inderes::forum::{
    decode_entities, mcp_post_to_cache, page_request_args, parse_posts_page, render_forum_search,
    render_topic, strip_html, thread_url, topic_id_from_url,
};
use inderes::json::Json;

fn j(s: &str) -> Json {
    Json::parse(s).expect("JSON")
}

fn field(v: &Json, key: &str) -> String {
    v.get(key).expect("field").to_text()
}

// --- strip_html / decode_entities ---------------------------------------------

#[test]
fn strip_html_collapses_intra_line_whitespace_but_keeps_paragraphs() {
    let html = "<p>Hello   <b>world</b></p>\n<p>second</p>";
    assert_eq!(strip_html(html), "Hello world\n\nsecond");
}

#[test]
fn strip_html_converts_br_to_newline() {
    assert_eq!(strip_html("line one<br>line two"), "line one\nline two");
}

#[test]
fn decode_entities_does_not_double_decode_amp() {
    assert_eq!(strip_html("&amp;gt;"), "&gt;");
}

#[test]
fn strip_html_decodes_common_entities() {
    let html = "<p>Tom &amp; Jerry said &quot;hi&quot; &lt;here&gt;</p>";
    assert_eq!(strip_html(html), "Tom & Jerry said \"hi\" <here>");
}

#[test]
fn strip_html_on_markdown_is_identity_modulo_whitespace() {
    let md = "See [ip fray](https://ipfray.com) for **details**";
    assert_eq!(strip_html(md), md);
}

#[test]
fn strip_html_knows_all_breaks_and_entities() {
    assert_eq!(strip_html("a<br/>b<br />c"), "a\nb\nc");
    assert_eq!(strip_html("<li>a</li><li>b</li>"), "a\nb");
    assert_eq!(strip_html("<blockquote>q</blockquote>r"), "q\nr");
    assert_eq!(decode_entities("&#39;&hellip;&nbsp;&amp;"), "'… &");
}

#[test]
fn strip_html_drops_blank_lines_at_the_ends_and_in_a_row() {
    assert_eq!(strip_html("\n\n a \r\n\n\n\tb\n\n"), "a\n\nb");
    assert_eq!(strip_html(""), "");
    assert_eq!(strip_html("<p></p>"), "");
}

#[test]
fn strip_html_drops_what_stands_in_an_open_tag() {
    assert_eq!(strip_html("a < b > c"), "a c");
    assert_eq!(strip_html("x<unfinished"), "x");
    assert_eq!(strip_html("y > z"), "y z");
}

#[test]
fn plain_lines_are_kept_as_they_are() {
    let text = "first line\n\nsecond **one**, R&D &c.\nthird";
    assert_eq!(strip_html(text), text);
    assert_eq!(strip_html(""), "");
}

#[test]
fn escaped_text_is_decoded_once() {
    assert_eq!(
        decode_entities("&lt;b&gt; &quot;x&quot; &#39;y&#39; &hellip; &amp;lt;"),
        "<b> \"x\" 'y' … &lt;"
    );
}

// --- thread_url / topic_id_from_url -------------------------------------------

#[test]
fn thread_url_addresses_topic_by_id_with_placeholder_slug() {
    assert_eq!(thread_url(73687), "https://forum.inderes.com/t/-/73687");
}

#[test]
fn topic_id_from_url_takes_the_trailing_numeric_segment() {
    assert_eq!(
        topic_id_from_url("https://forum.inderes.com/t/nokia-sijoituskohteena-osa-4/73687"),
        Some(73687)
    );
    assert_eq!(
        topic_id_from_url("https://forum.inderes.com/t/x/74/"),
        Some(74)
    );
    assert_eq!(topic_id_from_url("https://forum.inderes.com/about"), None);
}

#[test]
fn topic_id_from_url_passes_over_segments_that_are_no_integer() {
    assert_eq!(topic_id_from_url("a/12/x/"), Some(12));
    assert_eq!(topic_id_from_url("5"), Some(5));
    assert_eq!(topic_id_from_url(""), None);
    assert_eq!(topic_id_from_url("t/99999999999999999999"), None);
    assert_eq!(topic_id_from_url("t/+7"), Some(7));
    assert_eq!(topic_id_from_url("t/-7///"), Some(-7));
}

#[test]
fn thread_url_leads_back_to_its_topic() {
    for id in [0, 1, -1, 73687, i64::MAX, i64::MIN] {
        assert_eq!(topic_id_from_url(&thread_url(id)), Some(id));
    }
}

// --- mcp_post_to_cache -----------------------------------------------------------

#[test]
fn mcp_post_to_cache_maps_server_fields_to_cache_columns() {
    let mcp = j(r#"{
        "id": 1159826,
        "url": "https://forum.inderes.com/t/x/73687/1226",
        "username": "Mustathmir",
        "createdAt": "2026-06-19T19:42:40.553Z",
        "content": "Nokia ja Acer ovat allekirjoittaneet sopimuksen.",
        "postNumber": 1226,
        "replyCount": 0,
        "score": 12.5
    }"#);
    let row = mcp_post_to_cache(&mcp);
    assert_eq!(row.get_i64("id"), Some(1159826));
    assert_eq!(row.get_i64("post_number"), Some(1226));
    assert_eq!(row.get_str("username"), Some("Mustathmir"));
    assert_eq!(row.get_str("created_at"), Some("2026-06-19T19:42:40.553Z"));
    assert_eq!(
        row.get_str("cooked"),
        Some("Nokia ja Acer ovat allekirjoittaneet sopimuksen.")
    );
    assert_eq!(
        row.get_str("text"),
        Some("Nokia ja Acer ovat allekirjoittaneet sopimuksen.")
    );
    assert_eq!(
        row.get_str("url"),
        Some("https://forum.inderes.com/t/x/73687/1226")
    );
    assert_eq!(field(&row, "score"), "12.5");
    assert_eq!(row.get_i64("reply_count"), Some(0));
}

#[test]
fn mcp_post_to_cache_writes_null_for_what_is_missing() {
    let row = mcp_post_to_cache(&j(r#"{"id": "x", "content": 5}"#));
    assert_eq!(
        row.to_text(),
        r#"{"cooked":null,"created_at":null,"id":null,"post_number":null,"reply_count":null,"score":null,"text":null,"url":null,"username":null}"#
    );
}

// --- pagination helpers ----------------------------------------------------------

#[test]
fn page_request_args_omits_after_on_the_first_page() {
    let a = page_request_args("https://forum.inderes.com/t/-/74", None);
    assert_eq!(a.get_str("threadUrl"), Some("https://forum.inderes.com/t/-/74"));
    assert_eq!(a.get_i64("first"), Some(50));
    assert!(
        a.get("after").is_none(),
        "first page must not send a cursor"
    );
}

#[test]
fn page_request_args_resumes_from_cursor() {
    let a = page_request_args("https://forum.inderes.com/t/-/74", Some("c42"));
    assert_eq!(a.get_str("after"), Some("c42"));
    assert_eq!(a.get_i64("first"), Some(50));
}

#[test]
fn parse_posts_page_maps_posts_and_reads_pageinfo() {
    let sc = j(r#"{
        "posts": [
            {"id": 1, "postNumber": 1, "username": "a", "createdAt": "2026-01-01",
             "content": "first", "url": "u1", "replyCount": 0, "score": 0},
            {"id": 2, "postNumber": 2, "username": "b", "createdAt": "2026-01-02",
             "content": "second", "url": "u2", "replyCount": 1, "score": 3}
        ],
        "pageInfo": {"endCursor": "2", "hasNextPage": true, "totalPosts": 1176}
    }"#);
    let page = parse_posts_page(&sc);
    assert_eq!(page.posts.len(), 2);
    assert_eq!(page.posts[0].get_i64("post_number"), Some(1));
    assert_eq!(page.posts[0].get_str("cooked"), Some("first"));
    assert_eq!(page.next_cursor.as_deref(), Some("2"));
    assert!(page.has_next);
    assert_eq!(page.total_posts, Some(1176));
}

#[test]
fn parse_posts_page_handles_a_terminal_page() {
    let sc = j(r#"{"posts": [], "pageInfo": {"endCursor": "9", "hasNextPage": false}}"#);
    let page = parse_posts_page(&sc);
    assert!(page.posts.is_empty());
    assert!(!page.has_next);
    assert_eq!(page.next_cursor.as_deref(), Some("9"));
    assert_eq!(page.total_posts, None);
}

#[test]
fn parse_posts_page_takes_nothing_out_of_another_shape() {
    let page = parse_posts_page(&j(r#"{"posts": 3, "pageInfo": []}"#));
    assert!(page.posts.is_empty());
    assert!(!page.has_next);
    assert_eq!(page.next_cursor, None);
}

// --- renderers -------------------------------------------------------------------

#[test]
fn render_forum_search_lists_topics_with_ids_from_url() {
    let v = j(r#"{"topics": [
        {"title": "Nokia sijoituskohteena (Osa 4)", "postsCount": 1176,
         "url": "https://forum.inderes.com/t/nokia-sijoituskohteena-osa-4/73687"}
    ]}"#);
    let out = render_forum_search(&v);
    assert!(out.contains("#73687"), "got: {out}");
    assert!(out.contains("Nokia sijoituskohteena (Osa 4)"));
    assert!(out.contains("1176 posts"));
    assert!(out.contains("inderes forum topic"));
}

#[test]
fn render_forum_search_shows_a_topic_without_an_id() {
    let v = j(r#"{"topics": [{"url": "https://forum.inderes.com/about"}, {"title": "t"}]}"#);
    assert_eq!(
        render_forum_search(&v),
        "    (untitled)  (0 posts)\n    t  (0 posts)\n\nOpen a topic with: inderes forum topic <id>\n"
    );
}

#[test]
fn render_forum_search_empty_topics_is_a_genuine_no_result() {
    assert_eq!(
        render_forum_search(&j(r#"{"topics": []}"#)),
        "No matching topics.\n"
    );
}

#[test]
fn render_unrecognized_shape_dumps_raw_json_not_a_fake_empty() {
    for out in [
        render_forum_search(&j(r#"{"unexpected": 1}"#)),
        render_topic(&j(r#"{"unexpected": 1}"#)),
    ] {
        assert!(out.contains("unrecognized"), "got: {out}");
        assert!(out.contains("unexpected"), "got: {out}");
    }
}

#[test]
fn render_topic_shows_full_post_bodies() {
    let v = j(r#"{
        "id": 5,
        "title": "Outlook",
        "post_stream": {"posts": [
            {"post_number": 1, "username": "alice", "created_at": "2026-01-02",
             "cooked": "Bullish on margins"},
            {"post_number": 2, "username": "bob", "created_at": "2026-01-03",
             "cooked": "Disagree"}
        ]}
    }"#);
    let out = render_topic(&v);
    assert!(out.contains("Outlook"));
    assert!(out.contains("topic #5"));
    assert!(out.contains("#1 @alice (2026-01-02):"));
    assert!(out.contains("Bullish on margins"));
    assert!(out.contains("#2 @bob"));
    assert!(out.contains("Disagree"));
    assert_eq!(
        out,
        "Outlook\ntopic #5\n\n#1 @alice (2026-01-02):\nBullish on margins\n\n#2 @bob (2026-01-03):\nDisagree\n\n"
    );
}

#[test]
fn render_topic_does_not_html_strip_markdown_bodies() {
    let v = j(r#"{
        "id": 5,
        "title": "Valuation",
        "post_stream": {"posts": [
            {"post_number": 1, "username": "alice", "created_at": "2026-01-02",
             "cooked": "P/E < 10 and EV/EBITDA > 5",
             "text": "P/E < 10 and EV/EBITDA > 5"}
        ]}
    }"#);
    let out = render_topic(&v);
    assert!(out.contains("P/E < 10 and EV/EBITDA > 5"), "got: {out}");
}

#[test]
fn render_topic_handles_empty_stream() {
    let out = render_topic(&j(r#"{"title": "Empty", "post_stream": {"posts": []}}"#));
    assert!(out.contains("Empty"));
    assert!(out.contains("(no posts)"));
}

#[test]
fn render_topic_fills_in_what_a_post_lacks() {
    let out = render_topic(&j(r#"{"post_stream": {"posts": [{}]}}"#));
    assert_eq!(out, "(untitled)\n\n#0 @? ():\n\n\n");
}

#[test]
fn server_body_is_shown_verbatim() {
    let row = mcp_post_to_cache(&j(
        r#"{"id": 1, "postNumber": 3, "username": "a", "createdAt": "d", "content": "x <b> & y"}"#,
    ));
    let v = j(&format!(
        "{{\"title\": \"T\", \"post_stream\": {{\"posts\": [{}]}}}}",
        row.to_text()
    ));
    assert_eq!(render_topic(&v), "T\n\n#3 @a (d):\nx <b> & y\n\n");
}
