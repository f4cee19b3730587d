use inderes::activity::{Contender, Pace};
use inderes::cache::{Cache, CachedTopic};
use inderes::commands::{
    call_list, call_raw, call_target, clear_cache, confirm, endpoint, forum_activity, forum_clear,
    forum_momentum, forum_query, forum_topics, installed_skill_paths, log_level, login,
    no_momentum, no_topics, nothing_to_refresh, parse_topic_id, show_forum_search, show_topic,
    topic_envelope, uninstall, uninstall_farewell, uninstall_step, whoami, whoami_at, CallTarget, ClearStep,
    RefreshRun, RefreshTally, TopicRefresh, UninstallStep,
};
use inderes::json::Json;
use inderes::moment::Moment;
use inderes::query::QueryResult;
use inderes::skill::Host;
use inderes::storage::Tokens;

fn j(s: &str) -> Json {
    Json::parse(s).expect("JSON")
}

#[test]
fn settings_have_defaults() {
    assert_eq!(log_level(0), "warn");
    assert_eq!(log_level(1), "info");
    assert_eq!(log_level(9), "debug");
    assert_eq!(endpoint(None), "https://mcp.inderes.com/");
    assert_eq!(endpoint(Some("x".into())), "x");
}

#[test]
fn yes_is_said_in_few_ways() {
    for a in ["y", "Y", "yes", "YES", "Yes", " yeS \r\n"] {
        assert!(confirm(a), "{a:?}");
    }
    for a in ["", "n", "ye", "yess", "y e s", "ja", "ye\u{17f}"] {
        assert!(!confirm(a), "{a:?}");
    }
}

#[test]
fn yes_is_what_it_is_in_small_letters() {
    // Every character takes the place of each letter of the answer in turn.
    for c in '\0'..=char::MAX {
        for answer in [format!("{c}"), format!("{c}es"), format!("y{c}s"), format!("ye{c}")] {
            let small = answer.trim().to_lowercase();
            assert_eq!(
                confirm(&answer),
                small == "y" || small == "yes",
                "{answer:?}"
            );
        }
    }
}

#[test]
fn a_sign_in_is_greeted_by_name() {
    assert_eq!(login(None), "Signed in as unknown.\n");
    assert_eq!(
        login(Some(&j(r#"{"preferred_username": "ann", "email": "a@b"}"#))),
        "Signed in as ann.\n"
    );
    assert_eq!(login(Some(&j(r#"{"email": "a@b"}"#))), "Signed in as a@b.\n");
    assert_eq!(login(Some(&j("{}"))), "Signed in as unknown.\n");
}

#[test]
fn whoami_says_how_long_the_token_lasts() {
    let tokens = |secs| {
        Some(Tokens {
            access_token: "a".into(),
            refresh_token: None,
            expires_at: Moment::new(secs, 0).unwrap(),
            token_type: None,
            scope: None,
        })
    };
    let now = Moment::new(100, 0).unwrap();
    assert_eq!(whoami_at(&None, now), "Not signed in. Run `inderes login`.\n");
    assert_eq!(
        whoami_at(&tokens(160), now),
        "Signed in. Access token valid for 60s.\n"
    );
    assert_eq!(
        whoami_at(&tokens(100), now),
        "Signed in (refresh required on next call).\n"
    );
    // By the clock, a token of the year 1970 is long expired.
    assert_eq!(
        whoami(&tokens(160)),
        "Signed in (refresh required on next call).\n"
    );
}

#[test]
fn a_failed_tool_is_an_error_where_its_data_are_used() {
    let ok = call_raw("t", j(r#"{"content": []}"#)).unwrap();
    assert_eq!(ok.to_text(), "{\"content\":[]}");
    let e = call_raw(
        "t",
        j(r#"{"isError": true, "content": [{"type": "text", "text": "no"}]}"#),
    );
    assert_eq!(e.unwrap_err(), "MCP tool t returned an error: no");
}

#[test]
fn a_call_needs_a_tool() {
    assert!(matches!(call_target(true, Some("x".into())), Ok(CallTarget::List)));
    match call_target(false, Some("x".into())) {
        Ok(CallTarget::Tool(n)) => assert_eq!(n, "x"),
        other => panic!("got: {other:?}"),
    }
    assert_eq!(
        call_target(false, None).unwrap_err(),
        "missing tool name; pass --list to see all tools"
    );
}

#[test]
fn tools_are_listed_a_line_each() {
    let result = j(r#"{"tools": [
        {"name": "search-companies", "description": "Search by name\nmore"},
        {"description": ""}
    ]}"#);
    assert_eq!(
        call_list(&result, false),
        "search-companies                  Search by name\n?                                 \n"
    );
    assert_eq!(call_list(&j("{}"), false), "");
    assert_eq!(call_list(&j("{\"a\":1}"), true), "{\n  \"a\": 1\n}\n");
}

#[test]
fn a_topic_is_given_by_its_number() {
    assert_eq!(parse_topic_id("74").unwrap(), 74);
    assert_eq!(
        parse_topic_id("x\"").unwrap_err(),
        "invalid topic id \"x\\\"\": expected a number"
    );
}

#[test]
fn a_cached_thread_is_shown() {
    let mut c = Cache::new();
    assert_eq!(
        topic_envelope(&c, 74, "74").unwrap_err(),
        "forum topic 74 not found or has no posts"
    );
    c.upsert_posts(
        74,
        &vec![j(r#"{"id": 1, "post_number": 1, "username": "a", "created_at": "d", "text": "t"}"#)],
        "now",
    );
    c.set_topic_cursor(74, Some("Nokia"), None, None, "now");
    let v = topic_envelope(&c, 74, "74").unwrap();
    assert_eq!(show_topic(&v, false), "Nokia\ntopic #74\n\n#1 @a (d):\nt\n\n");
    assert!(show_topic(&v, true).starts_with("{\n  \"id\": 74,\n  \"post_stream\": {"));
    assert_eq!(
        show_forum_search(&j(r#"{"topics": []}"#), false),
        "No matching topics.\n"
    );
    assert_eq!(show_forum_search(&j("{}"), true), "{}\n");
}

#[test]
fn the_inventory_is_shown() {
    let topics = vec![
        CachedTopic {
            id: 74,
            title: Some("Nokia".into()),
            posts: 2,
            synced_at: Some("2026-01-01".into()),
        },
        CachedTopic {
            id: 12345678,
            title: None,
            posts: 0,
            synced_at: None,
        },
    ];
    assert_eq!(
        forum_topics(&topics, false),
        "#74           2 posts  synced 2026-01-01  Nokia\n#12345678      0 posts  synced ?  (untitled)\n"
    );
    assert!(forum_topics(&topics, true).contains("\"posts\": 2"));
    assert_eq!(
        forum_topics(&vec![], false),
        "No cached topics. Cache one with: inderes forum topic <id>\n"
    );
    assert_eq!(forum_topics(&vec![], true), "[]\n");
    assert_eq!(no_topics(true), "[]\n");
    assert_eq!(
        no_momentum(false),
        "No cached topics. Cache some with: inderes forum topic <id>\n"
    );
    assert_eq!(nothing_to_refresh(), "No cached topics to refresh.\n");
}

#[test]
fn clearing_needs_a_clear_request() {
    let wrong = |step| match step {
        ClearStep::Wrong(e) => e,
        other => panic!("got: {other:?}"),
    };
    assert!(matches!(
        forum_clear(false, Some("1"), true, false, None),
        ClearStep::NoCache
    ));
    assert_eq!(
        wrong(forum_clear(true, Some("1"), true, false, None)),
        "pass either a topic id or --all, not both"
    );
    assert_eq!(
        wrong(forum_clear(true, None, false, false, None)),
        "specify a topic id, or --all to clear the whole cache"
    );
    assert_eq!(
        wrong(forum_clear(true, Some("x"), false, true, None)),
        "invalid topic id \"x\": expected a number"
    );
    assert!(matches!(
        forum_clear(true, Some("74"), false, false, None),
        ClearStep::Topic(74)
    ));
    assert!(matches!(forum_clear(true, None, true, false, None), ClearStep::Ask));
    assert!(matches!(
        forum_clear(true, None, true, false, Some("no")),
        ClearStep::Abort
    ));
    assert!(matches!(
        forum_clear(true, None, true, false, Some("yes")),
        ClearStep::All
    ));
    assert!(matches!(forum_clear(true, None, true, true, None), ClearStep::All));
}

#[test]
fn clearing_does_what_it_says() {
    let mut c = Cache::new();
    for t in [7, 8, 9] {
        c.upsert_posts(t, &vec![j(&format!("{{\"id\": {t}}}"))], "now");
    }
    assert_eq!(clear_cache(&mut c, &ClearStep::Abort), "Aborted.\n");
    assert_eq!(clear_cache(&mut c, &ClearStep::NoCache), "No cache to clear.\n");
    assert_eq!(
        clear_cache(&mut c, &ClearStep::Ask),
        "Clear the entire forum cache? [y/N] "
    );
    assert_eq!(clear_cache(&mut c, &ClearStep::Wrong("w".into())), "w");
    assert_eq!(c.post_count(7), 1);
    assert_eq!(
        clear_cache(&mut c, &ClearStep::Topic(7)),
        "Cleared topic 7 from the cache.\n"
    );
    assert_eq!((c.post_count(7), c.post_count(8)), (0, 1));
    assert_eq!(
        clear_cache(&mut c, &ClearStep::All),
        "Cleared the entire forum cache.\n"
    );
    assert_eq!((c.post_count(8), c.post_count(9)), (0, 0));
}

#[test]
fn a_refresh_is_counted() {
    let mut t = RefreshTally::new();
    assert_eq!(t.add_topic(7, 1, 4, &TopicRefresh::Complete), "#7: +3 new\n");
    assert!(t.verdict().is_ok());
    assert_eq!(
        t.add_topic(8, 2, 3, &TopicRefresh::Interrupted),
        "#8: +1 new (interrupted)\n"
    );
    assert_eq!(
        t.add_topic(9, 2, 2, &TopicRefresh::Failed("down".into())),
        "#9: refresh failed: down\n"
    );
    assert_eq!(t.summary(), "Refreshed 3 topic(s), 4 new post(s).\n");
    assert_eq!(
        t.verdict().unwrap_err(),
        "2 topic(s) not fully refreshed (rate limit / network) — re-run to continue"
    );
}

#[test]
fn a_refresh_reads_every_topic_whatever_becomes_of_the_others() {
    let mut c = Cache::new();
    assert!(RefreshRun::begin(&c).is_none());
    c.set_topic_meta(9, None, None, 0, "now");
    c.set_topic_meta(-3, None, None, 0, "now");
    c.set_topic_meta(4, None, None, 0, "now");
    let mut run = RefreshRun::begin(&c).unwrap();
    assert_eq!(run.next_topic(), Some(-3));
    assert_eq!(
        run.topic_read(1, 1, &TopicRefresh::Failed("down".into())),
        "#-3: refresh failed: down\n"
    );
    assert_eq!(run.next_topic(), Some(4));
    assert!(run.can_count(2));
    assert_eq!(run.topic_read(1, 3, &TopicRefresh::Interrupted), "#4: +2 new (interrupted)\n");
    assert_eq!(run.next_topic(), Some(9));
    assert_eq!(run.topic_read(0, 5, &TopicRefresh::Complete), "#9: +5 new\n");
    assert_eq!(run.next_topic(), None);
    assert_eq!(run.summary(), "Refreshed 3 topic(s), 7 new post(s).\n");
    assert_eq!(
        run.verdict().unwrap_err(),
        "2 topic(s) not fully refreshed (rate limit / network) — re-run to continue"
    );
}

#[test]
fn a_query_is_shown_as_a_table_or_as_json() {
    let r = QueryResult {
        columns: vec!["username".into()],
        rows: vec![vec![j("\"alice\"")]],
    };
    let o = forum_query(&r, false);
    assert_eq!((o.out.as_str(), o.err.as_str()), ("username\n--------\nalice\n", "(1 row)\n"));
    let o = forum_query(&r, true);
    assert_eq!(
        (o.out.as_str(), o.err.as_str()),
        ("[\n  {\n    \"username\": \"alice\"\n  }\n]\n", "")
    );
    // As JSON, cells without a column are passed over.
    let r = QueryResult {
        columns: vec!["a".into()],
        rows: vec![vec![j("1"), j("2")]],
    };
    assert_eq!(forum_query(&r, true).out, "[\n  {\n    \"a\": 1\n  }\n]\n");
}

fn pace() -> Pace {
    Pace {
        current: 4,
        baseline: j("2.0"),
        baseline_text: "2".into(),
        ratio: j("2.0"),
        ratio_text: "2.0x".into(),
    }
}

#[test]
fn activity_is_shown_with_its_pace() {
    let series = vec![("2026-01".to_string(), 4i64)];
    let e = forum_activity("74", 74, "month", &vec![], &None, "", false).unwrap_err();
    assert_eq!(
        e,
        "no cached posts for topic 74 — run `inderes forum topic 74` first"
    );
    let out = forum_activity("74", 74, "month", &series, &None, "", false).unwrap();
    assert_eq!(
        out,
        "Activity for topic #74 (by month)\n2026-01         4  ████████████████████████\n(reflects cached posts; run `inderes forum topic` to refresh)\n"
    );
    let out =
        forum_activity("74", 74, "month", &series, &Some(pace()), "heating up", false).unwrap();
    assert!(out.contains("\nMomentum: 4 in the current month vs 2 avg — 2.0x (heating up)\n"));
    let out = forum_activity("74", 74, "month", &series, &Some(pace()), "", true).unwrap();
    assert!(out.contains("\"periods\"") && out.contains("\"momentum\""));
}

#[test]
fn threads_are_ranked_and_shown() {
    let c = |id, rank| Contender {
        id,
        title: None,
        pace: pace(),
        rank,
    };
    let (ranked, out) = forum_momentum("week", vec![c(1, 1), c(2, 2)], false);
    assert_eq!(ranked.iter().map(|c| c.id).collect::<Vec<_>>(), vec![2, 1]);
    assert!(out.find("#2").unwrap() < out.find("#1").unwrap());
    let (_, out) = forum_momentum("week", vec![], true);
    assert_eq!(out, "[]\n");
}

#[test]
fn removing_is_announced_and_agreed_to() {
    let found = vec![(Host::Openclaw, true), (Host::Hermes, false), (Host::Ptrclaw, true)];
    let skills = installed_skill_paths(&found, "/h", false);
    assert_eq!(
        skills,
        vec![
            "/h/.openclaw/skills/inderes/SKILL.md",
            "/h/.ptrclaw/skills/inderes/SKILL.md"
        ]
    );
    assert_eq!(
        uninstall("/t", &Some(skills), "/bin/inderes"),
        "This will:\n  - clear stored tokens at /t\n  - delete skill at /h/.openclaw/skills/inderes/SKILL.md\n  - delete skill at /h/.ptrclaw/skills/inderes/SKILL.md\n  - print the command you should run yourself to remove the binary at /bin/inderes\n"
    );
    assert!(uninstall("/t", &Some(vec![]), "/e").contains("(no installed skill files found to remove)"));
    assert!(!uninstall("/t", &None, "/e").contains("skill"));
    assert_eq!(uninstall_step(true, None), UninstallStep::Remove);
    assert_eq!(uninstall_step(false, None), UninstallStep::Ask);
    assert_eq!(uninstall_step(false, Some("y\n")), UninstallStep::Remove);
    assert_eq!(uninstall_step(false, Some("")), UninstallStep::Abort);
    assert!(uninstall_farewell("/e", false).contains("\n  rm /e\n"));
    assert!(uninstall_farewell("C:\\e", true).contains("\n  Remove-Item \"C:\\e\"\n"));
}
