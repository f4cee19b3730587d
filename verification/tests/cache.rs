use inderes::cache::{Cache, PostRow, TopicRow};
use inderes::json::Json;

fn j(s: &str) -> Json {
    Json::parse(s).expect("JSON")
}

fn post(id: i64, n: i64, user: &str, cooked: &str) -> Json {
    j(&format!(
        "{{\"id\": {id}, \"post_number\": {n}, \"username\": \"{user}\", \"created_at\": \"2026-01-01\", \"cooked\": \"{cooked}\"}}"
    ))
}

const NOW: &str = "2026-01-02 03:04:05";

#[test]
fn upsert_then_get_returns_posts_in_post_number_order() {
    let mut c = Cache::new();
    c.upsert_posts(
        7,
        &vec![post(20, 2, "bob", "second"), post(10, 1, "alice", "first")],
        NOW,
    );
    let got = c.get_posts(7);
    assert_eq!(got.len(), 2);
    assert_eq!(got[0].get_str("username"), Some("alice"));
    assert_eq!(got[1].get_str("username"), Some("bob"));
    assert_eq!(got[0].get_str("cooked"), Some("first"));
}

#[test]
fn upsert_is_idempotent_and_updates_on_conflict() {
    let mut c = Cache::new();
    c.upsert_posts(7, &vec![post(10, 1, "alice", "original")], NOW);
    let n = c.upsert_posts(7, &vec![post(10, 1, "alice", "edited")], NOW);
    assert_eq!(n, 1);
    assert_eq!(c.post_count(7), 1);
    assert_eq!(c.get_posts(7)[0].get_str("cooked"), Some("edited"));
}

#[test]
fn upsert_skips_posts_without_id() {
    let mut c = Cache::new();
    let n = c.upsert_posts(7, &vec![j(r#"{"post_number": 1, "cooked": "no id"}"#)], NOW);
    assert_eq!(n, 0);
    assert_eq!(c.post_count(7), 0);
}

#[test]
fn last_page_defaults_to_zero_then_tracks_watermark() {
    let mut c = Cache::new();
    assert_eq!(c.last_page(7), 0);
    c.set_topic_meta(7, Some("Title"), Some(40), 2, NOW);
    assert_eq!(c.last_page(7), 2);
    c.set_topic_meta(7, None, None, 1, NOW);
    assert_eq!(c.last_page(7), 2);
    assert_eq!(c.topic_title(7).as_deref(), Some("Title"));
}

#[test]
fn get_posts_preserves_full_raw_object() {
    let mut c = Cache::new();
    let rich = j(r#"{
        "id": 10, "post_number": 1, "username": "alice",
        "cooked": "hi", "post_url": "/t/7/1", "reactions": [{"id": "heart", "count": 3}]
    }"#);
    c.upsert_posts(7, &vec![rich], NOW);
    let got = c.get_posts(7);
    assert_eq!(got[0].get_str("post_url"), Some("/t/7/1"));
    assert_eq!(
        got[0].get_array("reactions").unwrap()[0].get_i64("count"),
        Some(3)
    );
}

#[test]
fn posts_are_scoped_per_topic() {
    let mut c = Cache::new();
    c.upsert_posts(7, &vec![post(10, 1, "a", "x")], NOW);
    c.upsert_posts(8, &vec![post(11, 1, "b", "y")], NOW);
    assert_eq!(c.post_count(7), 1);
    assert_eq!(c.post_count(8), 1);
    assert_eq!(c.get_posts(8)[0].get_str("username"), Some("b"));
}

#[test]
fn upserting_the_same_batch_again_changes_nothing() {
    let batch = vec![post(1, 2, "a", "x"), post(2, 1, "b", "y"), post(1, 3, "c", "z")];
    let mut c = Cache::new();
    assert_eq!(c.upsert_posts(7, &batch, NOW), 3);
    let once: Vec<String> = c.get_posts(7).iter().map(|p| p.to_text()).collect();
    assert_eq!(c.upsert_posts(7, &batch, NOW), 3);
    let twice: Vec<String> = c.get_posts(7).iter().map(|p| p.to_text()).collect();
    assert_eq!(once, twice);
    assert_eq!(c.upsert_posts(7, &batch, "2027-01-01 00:00:00"), 3);
    let later: Vec<String> = c.get_posts(7).iter().map(|p| p.to_text()).collect();
    assert_eq!(once, later);
    assert_eq!(c.post_count(7), 2);
    // The later version of the post decides.
    assert_eq!(c.get_posts(7)[1].get_str("username"), Some("c"));
}

#[test]
fn a_post_stays_with_its_topic() {
    let mut c = Cache::new();
    c.upsert_posts(7, &vec![post(10, 1, "a", "x")], NOW);
    c.upsert_posts(8, &vec![post(10, 1, "a", "moved")], NOW);
    assert_eq!(c.post_count(7), 1);
    assert_eq!(c.post_count(8), 0);
    assert_eq!(c.get_posts(7)[0].get_str("cooked"), Some("moved"));
}

#[test]
fn posts_without_a_number_come_first_and_equals_go_by_id() {
    let mut c = Cache::new();
    c.upsert_posts(
        1,
        &vec![
            post(5, 2, "e", ""),
            post(4, 2, "d", ""),
            j(r#"{"id": 9, "username": "n9"}"#),
            j(r#"{"id": 3, "username": "n3"}"#),
            post(8, 1, "h", ""),
        ],
        NOW,
    );
    let names: Vec<String> = c
        .get_posts(1)
        .iter()
        .map(|p| p.get_str("username").unwrap().to_string())
        .collect();
    assert_eq!(names, vec!["n3", "n9", "h", "d", "e"]);
}

#[test]
fn the_row_of_a_post_holds_clean_text() {
    let mut c = Cache::new();
    c.upsert_posts(
        1,
        &vec![
            j(r#"{"id": 1, "cooked": "<p>a &amp; b</p>"}"#),
            j(r#"{"id": 2, "cooked": "x < y", "text": "x < y"}"#),
            j(r#"{"id": 3}"#),
        ],
        NOW,
    );
    assert_eq!(c.post_row(1).unwrap().text.as_deref(), Some("a & b"));
    assert_eq!(c.post_row(2).unwrap().text.as_deref(), Some("x < y"));
    assert_eq!(c.post_row(3).unwrap().text, None);
    assert_eq!(c.post_row(1).unwrap().fetched_at.as_deref(), Some(NOW));
    assert_eq!(c.post_row(1).unwrap().raw.as_deref(), Some("{\"cooked\":\"<p>a &amp; b</p>\",\"id\":1}"));
    assert!(c.post_row(4).is_none());
}

fn bare_row(id: i64, raw: Option<&str>) -> PostRow {
    PostRow {
        id,
        topic_id: 7,
        post_number: Some(1),
        username: Some("u".into()),
        created_at: None,
        updated_at: Some("later".into()),
        cooked: Some("body".into()),
        text: None,
        raw: raw.map(str::to_string),
        fetched_at: None,
    }
}

#[test]
fn columns_stand_in_for_a_missing_or_broken_raw_text() {
    let expected = r#"{"cooked":"body","created_at":null,"id":1,"post_number":1,"updated_at":"later","username":"u"}"#;
    for raw in [None, Some("{broken")] {
        let mut c = Cache::new();
        c.load_post(bare_row(1, raw));
        assert_eq!(c.get_posts(7)[0].to_text(), expected);
    }
}

#[test]
fn set_topic_cursor_keeps_what_is_not_said() {
    let mut c = Cache::new();
    assert_eq!(c.topic_cursor(7), None);
    c.set_topic_cursor(7, Some("T"), Some(3), Some("c1"), "t1");
    c.set_topic_cursor(7, None, None, None, "t2");
    let row = c.topic_row(7).unwrap();
    assert_eq!(row.title.as_deref(), Some("T"));
    assert_eq!(row.posts_count, Some(3));
    assert_eq!(row.cursor.as_deref(), Some("c1"));
    assert_eq!(row.synced_at.as_deref(), Some("t2"));
    c.set_topic_cursor(7, None, Some(4), Some("c2"), "t3");
    assert_eq!(c.topic_cursor(7).as_deref(), Some("c2"));
    assert!(c.topic_row(8).is_none());
    assert_eq!(c.topic_title(8), None);
}

#[test]
fn the_inventory_counts_posts_and_goes_by_number() {
    let mut c = Cache::new();
    c.upsert_posts(9, &vec![post(1, 1, "a", ""), post(2, 2, "a", "")], NOW);
    c.set_topic_cursor(9, Some("Nine"), None, None, NOW);
    c.load_topic(TopicRow {
        id: -3,
        title: None,
        posts_count: None,
        last_page: 0,
        cursor: None,
        synced_at: None,
    });
    assert_eq!(c.cached_topic_ids(), vec![-3, 9]);
    let list = c.list_cached();
    assert_eq!(list.len(), 2);
    assert_eq!((list[0].id, list[0].posts), (-3, 0));
    assert_eq!((list[1].id, list[1].posts), (9, 2));
    assert_eq!(list[1].title.as_deref(), Some("Nine"));
    assert_eq!(list[1].synced_at.as_deref(), Some(NOW));
}

#[test]
fn clearing_a_topic_leaves_the_others() {
    let mut c = Cache::new();
    for t in [7, 8] {
        c.upsert_posts(t, &vec![post(t, 1, "a", "")], NOW);
        c.set_topic_cursor(t, None, None, None, NOW);
    }
    c.clear_topic(7);
    assert_eq!(c.post_count(7), 0);
    assert_eq!(c.post_count(8), 1);
    assert_eq!(c.cached_topic_ids(), vec![8]);
    c.clear_all();
    assert_eq!(c.post_count(8), 0);
    assert!(c.cached_topic_ids().is_empty());
}
