use inderes::cache::Cache;
use inderes::forum::PostsPage;
use inderes::json::Json;
use inderes::walk::{read_page, walk_start, walk_step, Step};
use std::collections::VecDeque;

fn j(s: &str) -> Json {
    Json::parse(s).expect("JSON")
}

fn page(posts: Vec<Json>, next: Option<&str>, has_next: bool) -> PostsPage {
    PostsPage {
        posts,
        next_cursor: next.map(str::to_string),
        has_next,
        total_posts: None,
    }
}

fn cache_post(id: i64, n: i64) -> Json {
    j(&format!(
        "{{\"id\": {id}, \"post_number\": {n}, \"username\": \"u\", \"created_at\": \"2026-01-01\", \"cooked\": \"body\", \"text\": \"body\"}}"
    ))
}

/// Walks a thread over pages that are there beforehand, and notes the cursors asked for.
fn walk_thread(
    c: &mut Cache,
    topic_id: i64,
    cursor: Option<&str>,
    pages: Vec<Result<PostsPage, String>>,
) -> (Result<bool, String>, Vec<Option<String>>) {
    let mut pages: VecDeque<Result<PostsPage, String>> = pages.into_iter().collect();
    let mut cursor = cursor.map(str::to_string);
    let mut seen = Vec::new();
    loop {
        seen.push(cursor.clone());
        let reply = pages.pop_front().expect("more pages than were queued");
        match walk_step(c, topic_id, &cursor, &reply, "now") {
            Step::Next(next) => cursor = next,
            Step::Done => return (Ok(false), seen),
            Step::Interrupted(_) => return (Ok(true), seen),
            Step::Failed(e) => return (Err(e), seen),
        }
    }
}

#[test]
fn walk_thread_caches_all_pages_until_no_next() {
    let mut c = Cache::new();
    let (r, seen) = walk_thread(
        &mut c,
        7,
        None,
        vec![
            Ok(page(
                vec![cache_post(1, 1), cache_post(2, 2)],
                Some("c1"),
                true,
            )),
            Ok(page(vec![cache_post(3, 3)], Some("c2"), false)),
        ],
    );
    assert!(!r.unwrap());
    assert_eq!(c.post_count(7), 3);
    assert_eq!(c.topic_cursor(7).as_deref(), Some("c2"));
    assert_eq!(seen, vec![None, Some("c1".to_string())]);
}

#[test]
fn walk_thread_resumes_from_stored_cursor_and_marks_caught_up() {
    let mut c = Cache::new();
    c.upsert_posts(7, &vec![cache_post(1, 1)], "then");
    c.set_topic_cursor(7, Some("T"), Some(1), Some("c5"), "then");
    let (r, seen) = walk_thread(
        &mut c,
        7,
        Some("c5"),
        vec![Ok(page(vec![], Some("c5"), false))],
    );
    assert!(!r.unwrap());
    assert_eq!(seen, vec![Some("c5".to_string())]);
    assert_eq!(c.post_count(7), 1);
    assert_eq!(c.topic_cursor(7).as_deref(), Some("c5"));
    assert_eq!(c.topic_row(7).unwrap().synced_at.as_deref(), Some("now"));
}

#[test]
fn walk_thread_interrupted_serves_cached_posts() {
    let mut c = Cache::new();
    c.upsert_posts(7, &vec![cache_post(1, 1)], "then");
    let (r, _) = walk_thread(&mut c, 7, Some("c"), vec![Err("rate limited".into())]);
    assert!(r.unwrap(), "a failure with cached posts should serve them");
    assert_eq!(c.post_count(7), 1);
}

#[test]
fn walk_thread_error_without_cache_propagates() {
    let mut c = Cache::new();
    let (r, _) = walk_thread(&mut c, 7, None, vec![Err("boom".into())]);
    let err = r.unwrap_err();
    assert!(err.contains("fetching forum topic 7"), "got: {err}");
    assert_eq!(err, "fetching forum topic 7: boom");
}

#[test]
fn walk_thread_empty_first_page_leaves_topic_uncached() {
    let mut c = Cache::new();
    let (r, _) = walk_thread(&mut c, 7, None, vec![Ok(page(vec![], None, false))]);
    assert!(!r.unwrap());
    assert_eq!(c.post_count(7), 0);
    assert_eq!(c.topic_cursor(7), None);
    assert!(c.topic_row(7).is_none());
}

#[test]
fn an_interrupted_walk_warns_and_can_be_resumed() {
    let mut c = Cache::new();
    let first = Ok(page(vec![cache_post(1, 1)], Some("c1"), true));
    match walk_step(&mut c, 7, &None, &first, "now") {
        Step::Next(Some(cursor)) => assert_eq!(cursor, "c1"),
        other => panic!("got: {other:?}"),
    }
    match walk_step(&mut c, 7, &Some("c1".into()), &Err("down".into()), "now") {
        Step::Interrupted(w) => assert_eq!(
            w,
            "warning: forum fetch for topic 7 stopped (down); serving cached posts — re-run to resume."
        ),
        other => panic!("got: {other:?}"),
    }
    assert_eq!(c.topic_cursor(7).as_deref(), Some("c1"));
    assert_eq!(c.post_count(7), 1);
}

#[test]
fn a_page_notes_the_size_of_the_thread() {
    let mut c = Cache::new();
    let mut p = page(vec![cache_post(1, 1)], None, true);
    p.total_posts = Some(12);
    match walk_step(&mut c, 7, &None, &Ok(p), "now") {
        Step::Next(None) => {}
        other => panic!("got: {other:?}"),
    }
    assert_eq!(c.topic_row(7).unwrap().posts_count, Some(12));
}

#[test]
fn read_page_reads_structured_content() {
    let p = read_page(&j(
        r#"{"structuredContent": {"posts": [{"id": 4}], "pageInfo": {"hasNextPage": true}}}"#,
    ))
    .unwrap();
    assert_eq!(p.posts[0].get_i64("id"), Some(4));
    assert!(p.has_next);
}

#[test]
fn read_page_says_why_there_is_no_page() {
    let e = read_page(&j(r#"{"isError": true, "content": [{"type": "text", "text": " gone "}]}"#));
    assert_eq!(e.unwrap_err(), "gone");
    let e = read_page(&j(r#"{"content": []}"#));
    assert_eq!(
        e.unwrap_err(),
        "MCP result had no structuredContent or text content"
    );
}

#[test]
fn a_walk_begins_where_the_cache_says_unless_it_is_to_read_anew() {
    let mut c = Cache::new();
    assert_eq!(walk_start(&c, 7, false), None);
    c.set_topic_cursor(7, None, None, Some("c5"), "then");
    assert_eq!(walk_start(&c, 7, false).as_deref(), Some("c5"));
    assert_eq!(walk_start(&c, 7, true), None);
    assert_eq!(walk_start(&c, 8, false), None);
}
