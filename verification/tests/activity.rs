use inderes::activity::{
    activity_json, momentum_json, rank_threads, render_activity, render_momentum, render_pace,
    Contender, Pace,
};
use inderes::double::share_of;
use inderes::json::Json;

fn pace(current: i64, baseline: &str, ratio: &str, ratio_text: &str) -> Pace {
    Pace {
        current,
        baseline: Json::parse(baseline).unwrap(),
        baseline_text: baseline.to_string(),
        ratio: Json::parse(ratio).unwrap(),
        ratio_text: ratio_text.to_string(),
    }
}

fn contender(id: i64, rank: i64) -> Contender {
    Contender {
        id,
        title: None,
        pace: pace(id, "2", "1.5", "1.5x"),
        rank,
    }
}

#[test]
fn render_activity_shows_bars_only() {
    let s = vec![
        ("2026-W01".to_string(), 10i64),
        ("2026-W02".to_string(), 30),
    ];
    let out = render_activity(7, "week", &s);
    assert!(out.contains("topic #7"));
    assert!(out.contains("2026-W02"));
    assert!(!out.contains("Momentum"), "got: {out}");
    assert_eq!(
        out,
        "Activity for topic #7 (by week)\n2026-W01       10  ████████\n2026-W02       30  ████████████████████████\n"
    );
}

#[test]
fn bars_are_rounded_as_fractions_are() {
    for max in 1..=120i64 {
        for n in -2..=max {
            let out = render_activity(1, "day", &vec![("a".into(), n), ("b".into(), max)]);
            let line = out.lines().nth(1).unwrap();
            let bar = line.chars().filter(|c| *c == '█').count();
            let expected = ((n as f64 / max as f64) * 24.0).round() as usize;
            assert_eq!(bar, expected, "{n} of {max}");
        }
    }
}

#[test]
fn bars_of_huge_counts_are_rounded_as_fractions_are() {
    let mut counts: Vec<i64> = vec![1, 2, 3, 5, 7, 11, 13, 24, 47, 48, 1_000_003];
    for bits in 40..63 {
        for near in [-3i64, -2, -1, 0, 1, 2, 3] {
            counts.push((1i64 << bits) + near);
            counts.push((3i64 << (bits - 1)) + near);
            counts.push((1i64 << bits) / 48 * 7 + near);
        }
    }
    counts.push(i64::MAX);
    counts.push(i64::MAX - 512);
    for max in &counts {
        for n in counts.iter().chain(&[i64::MIN, -1, 0]) {
            if n <= max {
                let expected = ((*n as f64 / *max as f64) * 24.0).round() as usize;
                assert_eq!(share_of(*n, *max), expected, "{n} of {max}");
            }
        }
    }
    // A share just below the middle is rounded up where the fraction is.
    assert_eq!(share_of((1 << 56) - 1, 3 << 60), 1);
    // Numbers without a pattern.
    let mut x: u64 = 0x9e37_79b9_7f4a_7c15;
    for _ in 0..200_000 {
        let mut draw = || {
            x ^= x << 13;
            x ^= x >> 7;
            x ^= x << 17;
            ((x >> 1) >> (x % 63)) as i64
        };
        let (a, b) = (draw(), draw());
        let (n, max) = (a.min(b), a.max(b).max(1));
        let expected = ((n as f64 / max as f64) * 24.0).round() as usize;
        assert_eq!(share_of(n, max), expected, "{n} of {max}");
    }
}

#[test]
fn an_idle_thread_has_no_bars() {
    assert_eq!(
        render_activity(-1, "month", &vec![("2026-01".into(), 0)]),
        "Activity for topic #-1 (by month)\n2026-01         0  \n"
    );
    assert_eq!(
        render_activity(1, "month", &vec![]),
        "Activity for topic #1 (by month)\n"
    );
}

#[test]
fn the_pace_is_said_in_a_line() {
    assert_eq!(
        render_pace(&pace(30, "18", "1.67", "1.7x"), "week", "heating up"),
        "\nMomentum: 30 in the current week vs 18 avg — 1.7x (heating up)\n"
    );
}

#[test]
fn activity_json_leaves_an_unknown_pace_out() {
    let s = vec![("p".to_string(), 2i64)];
    assert_eq!(
        activity_json("day", &s, &None).to_text(),
        "{\"bucket\":\"day\",\"periods\":[{\"count\":2,\"period\":\"p\"}]}"
    );
    assert_eq!(
        activity_json("day", &s, &Some(pace(2, "0", "null", "new"))).to_text(),
        "{\"bucket\":\"day\",\"momentum\":{\"baseline_avg\":0,\"current\":2,\"ratio\":null},\"periods\":[{\"count\":2,\"period\":\"p\"}]}"
    );
}

#[test]
fn ranking_is_descending_and_keeps_the_order_of_equals() {
    let ranked = rank_threads(vec![
        contender(1, 5),
        contender(2, 9),
        contender(3, 5),
        contender(4, i64::MIN),
        contender(5, i64::MAX),
        contender(6, 9),
    ]);
    let ids: Vec<i64> = ranked.iter().map(|c| c.id).collect();
    assert_eq!(ids, vec![5, 2, 6, 1, 3, 4]);
}

#[test]
fn momentum_is_shown_as_a_table() {
    assert_eq!(
        render_momentum("week", &vec![]),
        "Not enough cached history to rank momentum (need --periods 2+).\n"
    );
    let mut c = contender(74, 1);
    c.title = Some("Nokia".into());
    assert_eq!(
        render_momentum("week", &vec![c, contender(3, 0)]),
        "Cross-topic momentum (by week, current vs baseline)\n ratio  current    avg  topic\n  1.5x       74      2  #74 Nokia\n  1.5x        3      2  #3 (untitled)\n\n(reflects cached posts; run `inderes forum refresh-all` for a current picture)\n"
    );
    assert_eq!(
        momentum_json(&vec![contender(3, 0)]).to_text(),
        "[{\"baseline_avg\":2,\"current\":3,\"id\":3,\"ratio\":1.5,\"title\":null}]"
    );
}
