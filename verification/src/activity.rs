//! How lively a thread is: posts over time, and threads against one another.
//!
//! The ratio of the current period to the ones before it is a fraction. It comes in here as
//! the text and the JSON that stand for it, and as a number by which it is ranked.

use vstd::prelude::*;

use crate::double;
use crate::json;
use crate::json::{Json, JsonMap, JsonView};
use crate::text;

verus! {

// --- one thread over time ---------------------------------------------------------------

/// The highest count, and at least one.
pub open spec fn highest(series: Seq<(String, i64)>) -> int
    decreases series.len(),
{
    if series.len() == 0 {
        1
    } else if series.last().1 > highest(series.drop_last()) {
        series.last().1 as int
    } else {
        highest(series.drop_last())
    }
}

/// The length of a bar: its share of the longest one, which is 24 long.
pub open spec fn bar_len(n: int, max: int) -> int {
    double::share(n, max)
}

/// The line of one period.
pub open spec fn period_text(period: Seq<char>, n: int, max: int) -> Seq<char> {
    text::padded_right(period, 10) + "  "@ + text::padded_left(text::int_text(n), 5) + "  "@
        + text::repeated('█', bar_len(n, max)) + "\n"@
}

/// The lines of periods.
pub open spec fn periods_text(series: Seq<(String, i64)>, max: int) -> Seq<char>
    decreases series.len(),
{
    if series.len() == 0 {
        seq![]
    } else {
        periods_text(series.drop_last(), max) + period_text(
            series.last().0@,
            series.last().1 as int,
            max,
        )
    }
}

/// The activity of a thread as a chart of bars.
pub open spec fn activity_text(
    topic_id: int,
    bucket: Seq<char>,
    series: Seq<(String, i64)>,
) -> Seq<char> {
    "Activity for topic #"@ + text::int_text(topic_id) + " (by "@ + bucket + ")\n"@
        + periods_text(series, highest(series))
}

proof fn lemma_highest(series: Seq<(String, i64)>)
    ensures
        1 <= highest(series) <= i64::MAX,
        forall|i: int| 0 <= i < series.len() ==> (#[trigger] series[i]).1 <= highest(series),
    decreases series.len(),
{
    if series.len() > 0 {
        lemma_highest(series.drop_last());
        assert forall|i: int| 0 <= i < series.len() implies (#[trigger] series[i]).1 <= highest(
            series,
        ) by {
            if i < series.len() - 1 {
                assert(series.drop_last()[i] == series[i]);
            }
        }
    }
}

/// No bar is longer than the longest may be, and the highest count has the longest.
pub proof fn law_bars_fit(n: int, max: int)
    requires
        0 < max,
        n <= max,
    ensures
        0 <= bar_len(n, max) <= 24,
        n == max ==> bar_len(n, max) == 24,
{
    double::law_share_fits(n, max);
}

/// Renders the activity of a thread.
pub fn render_activity(topic_id: i64, bucket: &str, series: &Vec<(String, i64)>) -> (r: String)
    ensures
        r@ == activity_text(topic_id as int, bucket@, series@),
{
    let mut out = "Activity for topic #".to_owned();
    out.append(text::show_i64(topic_id).as_str());
    out.append(" (by ");
    out.append(bucket);
    out.append(")\n");
    let mut max: i64 = 1;
    let mut i: usize = 0;
    while i < series.len()
        invariant
            i <= series@.len(),
            max == highest(series@.take(i as int)),
        decreases series@.len() - i,
    {
        assert(series@.take(i + 1).drop_last() == series@.take(i as int));
        if series[i].1 > max {
            max = series[i].1;
        }
        i += 1;
    }
    assert(series@.take(i as int) == series@);
    proof {
        lemma_highest(series@);
    }
    let ghost head = out@;
    assert(head + periods_text(series@.take(0), max as int) == head);
    i = 0;
    while i < series.len()
        invariant
            i <= series@.len(),
            max == highest(series@),
            1 <= max,
            forall|j: int| 0 <= j < series@.len() ==> (#[trigger] series@[j]).1 <= max,
            out@ == head + periods_text(series@.take(i as int), max as int),
        decreases series@.len() - i,
    {
        let ghost before = periods_text(series@.take(i as int), max as int);
        assert(series@.take(i + 1).drop_last() == series@.take(i as int));
        assert(series@[i as int].1 <= max);
        let line = render_period(series[i].0.as_str(), series[i].1, max);
        out.append(line.as_str());
        assert(head + before + line@ == head + (before + line@));
        i += 1;
    }
    assert(series@.take(i as int) == series@);
    out
}

/// The line of one period.
fn render_period(period: &str, n: i64, max: i64) -> (r: String)
    requires
        1 <= max,
        n <= max,
    ensures
        r@ == period_text(period@, n as int, max as int),
{
    let bar = double::share_of(n, max);
    let mut line = text::pad_right(period, 10);
    line.append("  ");
    line.append(text::pad_left(text::show_i64(n).as_str(), 5).as_str());
    line.append("  ");
    text::push_repeated(&mut line, '█', bar);
    line.append("\n");
    line
}

/// The current period of a thread against the ones before it.
#[derive(Debug)]
pub struct Pace {
    /// How many posts there are in the current period.
    pub current: i64,
    /// The average of the periods before it, as JSON and as text.
    pub baseline: Json,
    pub baseline_text: String,
    /// The ratio of the two, as JSON and as text.
    pub ratio: Json,
    pub ratio_text: String,
}

/// The line on the pace of a thread.
pub open spec fn pace_text(pace: Pace, bucket: Seq<char>, label: Seq<char>) -> Seq<char> {
    "\nMomentum: "@ + text::int_text(pace.current as int) + " in the current "@ + bucket + " vs "@
        + pace.baseline_text@ + " avg — "@ + pace.ratio_text@ + " ("@ + label + ")\n"@
}

/// The line on the pace of a thread.
pub fn render_pace(pace: &Pace, bucket: &str, label: &str) -> (r: String)
    ensures
        r@ == pace_text(*pace, bucket@, label@),
{
    let mut out = "\nMomentum: ".to_owned();
    out.append(text::show_i64(pace.current).as_str());
    out.append(" in the current ");
    out.append(bucket);
    out.append(" vs ");
    out.append(pace.baseline_text.as_str());
    out.append(" avg — ");
    out.append(pace.ratio_text.as_str());
    out.append(" (");
    out.append(label);
    out.append(")\n");
    out
}

/// One period as an object.
pub open spec fn period_value(p: (String, i64)) -> JsonView {
    JsonView::Object(
        Map::<Seq<char>, JsonView>::empty().insert("period"@, JsonView::Str(p.0@)).insert(
            "count"@,
            JsonView::Int(p.1 as int),
        ),
    )
}

/// The pace of a thread as an object.
pub open spec fn pace_value(pace: Pace) -> JsonView {
    JsonView::Object(
        Map::<Seq<char>, JsonView>::empty().insert(
            "current"@,
            JsonView::Int(pace.current as int),
        ).insert("baseline_avg"@, pace.baseline@).insert("ratio"@, pace.ratio@),
    )
}

/// The activity of a thread as an object; the pace is left out where it is not known.
pub open spec fn activity_value(
    bucket: Seq<char>,
    series: Seq<(String, i64)>,
    pace: Option<Pace>,
) -> JsonView {
    let fields = Map::<Seq<char>, JsonView>::empty().insert(
        "bucket"@,
        JsonView::Str(bucket),
    ).insert(
        "periods"@,
        JsonView::Array(series.map_values(|p: (String, i64)| period_value(p))),
    );
    match pace {
        Some(p) => JsonView::Object(fields.insert("momentum"@, pace_value(p))),
        None => JsonView::Object(fields),
    }
}

/// The activity of a thread as an object.
pub fn activity_json(bucket: &str, series: &Vec<(String, i64)>, pace: &Option<Pace>) -> (r: Json)
    ensures
        r@ == activity_value(bucket@, series@, *pace),
{
    let mut periods: Vec<Json> = Vec::new();
    let mut i: usize = 0;
    while i < series.len()
        invariant
            i <= series@.len(),
            periods@.len() == i,
            forall|j: int| 0 <= j < i ==> (#[trigger] periods@[j])@ == period_value(series@[j]),
        decreases series@.len() - i,
    {
        let mut p = JsonMap::new();
        p.insert("period", Json::text(series[i].0.as_str()));
        p.insert("count", Json::Int(series[i].1));
        periods.push(Json::Object(p));
        i += 1;
    }
    assert(json::items_view(periods@) =~= series@.map_values(
        |p: (String, i64)| period_value(p),
    ));
    let mut fields = JsonMap::new();
    fields.insert("bucket", Json::text(bucket));
    fields.insert("periods", Json::Array(periods));
    if let Some(p) = pace {
        let mut m = JsonMap::new();
        m.insert("current", Json::Int(p.current));
        m.insert("baseline_avg", p.baseline.copy());
        m.insert("ratio", p.ratio.copy());
        fields.insert("momentum", Json::Object(m));
    }
    Json::Object(fields)
}

// --- threads against one another --------------------------------------------------------

/// A thread among others.
#[derive(Debug)]
pub struct Contender {
    pub id: i64,
    pub title: Option<String>,
    pub pace: Pace,
    /// The place of the ratio among all ratios: a higher ratio has a higher rank.
    pub rank: i64,
}

/// The threads that have the rank, in their order.
pub open spec fn of_rank(v: Seq<Contender>, rank: i64) -> Seq<Contender> {
    v.filter(|c: Contender| c.rank == rank)
}

/// Whether no thread stands before one of a higher rank.
pub open spec fn descending(v: Seq<Contender>) -> bool {
    forall|i: int, j: int| 0 <= i < j < v.len() ==> (#[trigger] v[i]).rank >= (#[trigger] v[j]).rank
}

proof fn lemma_of_rank_none(v: Seq<Contender>, rank: i64)
    requires
        forall|i: int| 0 <= i < v.len() ==> (#[trigger] v[i]).rank != rank,
    ensures
        of_rank(v, rank) == Seq::<Contender>::empty(),
    decreases v.len(),
{
    reveal(Seq::filter);
    if v.len() > 0 {
        assert(v[v.len() - 1].rank != rank);
        assert forall|i: int| 0 <= i < v.drop_last().len() implies (#[trigger] v.drop_last()[i]).rank
            != rank by {
            assert(v.drop_last()[i] == v[i]);
        }
        lemma_of_rank_none(v.drop_last(), rank);
    }
}

proof fn lemma_of_rank_insert(v: Seq<Contender>, at: int, x: Contender, rank: i64)
    requires
        0 <= at <= v.len(),
        forall|i: int| at <= i < v.len() ==> (#[trigger] v[i]).rank < x.rank,
    ensures
        of_rank(v.insert(at, x), rank) == of_rank(v.push(x), rank),
{
    let p = |c: Contender| c.rank == rank;
    let a = v.take(at);
    let b = v.skip(at);
    assert(v.insert(at, x) == a + seq![x] + b);
    assert(v.push(x) == a + b + seq![x]);
    Seq::filter_distributes_over_add(a + seq![x], b, p);
    Seq::filter_distributes_over_add(a, seq![x], p);
    Seq::filter_distributes_over_add(a + b, seq![x], p);
    Seq::filter_distributes_over_add(a, b, p);
    if rank == x.rank {
        lemma_of_rank_none(b, rank);
        assert(b.filter(p) == of_rank(b, rank));
    } else {
        lemma_of_rank_none(seq![x], rank);
        assert(seq![x].filter(p) == of_rank(seq![x], rank));
    }
    assert(a.filter(p) + seq![x].filter(p) + b.filter(p) == a.filter(p) + b.filter(p)
        + seq![x].filter(p));
}

/// Ranks threads: the highest rank first, those of the same rank in the order they had.
pub fn rank_threads(threads: Vec<Contender>) -> (r: Vec<Contender>)
    ensures
        r@.len() == threads@.len(),
        descending(r@),
        forall|rank: i64| #[trigger] of_rank(r@, rank) == of_rank(threads@, rank),
{
    let ghost all = threads@;
    let mut out: Vec<Contender> = Vec::new();
    proof {
        assert forall|rank: i64| #[trigger] of_rank(out@, rank) == of_rank(all.take(0), rank) by {
            assert(out@ == all.take(0));
        }
    }
    for x in it: threads
        invariant
            it.seq() == all,
            out@.len() == it.index(),
            descending(out@),
            forall|rank: i64| #[trigger]
                of_rank(out@, rank) == of_rank(all.take(it.index() as int), rank),
    {
        let ghost n = it.index() as int;
        let ghost before = out@;
        let mut at: usize = out.len();
        while at > 0 && out[at - 1].rank < x.rank
            invariant
                at <= out@.len(),
                out@ == before,
                forall|i: int| at <= i < before.len() ==> (#[trigger] before[i]).rank < x.rank,
            decreases at,
        {
            at = at - 1;
        }
        out.insert(at, x);
        proof {
            assert(out@ == before.insert(at as int, x));
            assert forall|i: int, j: int| 0 <= i < j < out@.len() implies (#[trigger] out@[i]).rank
                >= (#[trigger] out@[j]).rank by {
                if i < at && j == at {
                    if i < at - 1 {
                        assert(before[i].rank >= before[at - 1].rank);
                    }
                }
            }
            assert forall|rank: i64| #[trigger] of_rank(out@, rank) == of_rank(
                all.take(n + 1),
                rank,
            ) by {
                lemma_of_rank_insert(before, at as int, x, rank);
                let p = |c: Contender| c.rank == rank;
                Seq::filter_distributes_over_add(before, seq![x], p);
                Seq::filter_distributes_over_add(all.take(n), seq![x], p);
                assert(before.push(x) == before + seq![x]);
                assert(all.take(n + 1) == all.take(n) + seq![x]);
                assert(of_rank(before, rank) == of_rank(all.take(n), rank));
            }
        }
    }
    assert(all.take(all.len() as int) == all);
    out
}

/// One thread among others as an object.
pub open spec fn contender_value(c: Contender) -> JsonView {
    JsonView::Object(
        Map::<Seq<char>, JsonView>::empty().insert("id"@, JsonView::Int(c.id as int)).insert(
            "title"@,
            json::text_or_null(text::seen_string(c.title)),
        ).insert("current"@, JsonView::Int(c.pace.current as int)).insert(
            "baseline_avg"@,
            c.pace.baseline@,
        ).insert("ratio"@, c.pace.ratio@),
    )
}

/// Threads as an array of objects.
pub open spec fn momentum_value(ranked: Seq<Contender>) -> JsonView {
    JsonView::Array(ranked.map_values(|c: Contender| contender_value(c)))
}

/// One thread among others, in a line.
pub open spec fn contender_text(c: Contender) -> Seq<char> {
    text::padded_left(c.pace.ratio_text@, 6) + "  "@ + text::padded_left(
        text::int_text(c.pace.current as int),
        7,
    ) + "  "@ + text::padded_left(c.pace.baseline_text@, 5) + "  #"@ + text::int_text(c.id as int)
        + " "@ + text::or_text(text::seen_string(c.title), "(untitled)"@) + "\n"@
}

/// The first `n` threads, a line each.
pub open spec fn contenders_text(ranked: Seq<Contender>, n: nat) -> Seq<char>
    decreases n,
{
    if n == 0 || n > ranked.len() {
        seq![]
    } else {
        contenders_text(ranked, (n - 1) as nat) + contender_text(ranked[n - 1])
    }
}

/// Threads against one another.
pub open spec fn momentum_text(bucket: Seq<char>, ranked: Seq<Contender>) -> Seq<char> {
    if ranked.len() == 0 {
        "Not enough cached history to rank momentum (need --periods 2+).\n"@
    } else {
        "Cross-topic momentum (by "@ + bucket + ", current vs baseline)\n"@
            + " ratio  current    avg  topic\n"@ + contenders_text(ranked, ranked.len())
            + "\n(reflects cached posts; run `inderes forum refresh-all` for a current picture)\n"@
    }
}

/// Threads as an array of objects.
pub fn momentum_json(ranked: &Vec<Contender>) -> (r: Json)
    ensures
        r@ == momentum_value(ranked@),
{
    let mut items: Vec<Json> = Vec::new();
    let mut i: usize = 0;
    while i < ranked.len()
        invariant
            i <= ranked@.len(),
            items@.len() == i,
            forall|j: int| 0 <= j < i ==> (#[trigger] items@[j])@ == contender_value(ranked@[j]),
        decreases ranked@.len() - i,
    {
        let c = &ranked[i];
        let mut m = JsonMap::new();
        m.insert("id", Json::Int(c.id));
        let title = match &c.title {
            Some(t) => Json::text(t.as_str()),
            None => Json::Null,
        };
        m.insert("title", title);
        m.insert("current", Json::Int(c.pace.current));
        m.insert("baseline_avg", c.pace.baseline.copy());
        m.insert("ratio", c.pace.ratio.copy());
        items.push(Json::Object(m));
        i += 1;
    }
    assert(json::items_view(items@) =~= ranked@.map_values(|c: Contender| contender_value(c)));
    Json::Array(items)
}

/// Renders threads against one another.
pub fn render_momentum(bucket: &str, ranked: &Vec<Contender>) -> (r: String)
    ensures
        r@ == momentum_text(bucket@, ranked@),
{
    if ranked.len() == 0 {
        return "Not enough cached history to rank momentum (need --periods 2+).\n".to_owned();
    }
    let mut out = "Cross-topic momentum (by ".to_owned();
    out.append(bucket);
    out.append(", current vs baseline)\n");
    out.append(" ratio  current    avg  topic\n");
    let ghost head = out@;
    assert(head + contenders_text(ranked@, 0) == head);
    let mut i: usize = 0;
    while i < ranked.len()
        invariant
            i <= ranked@.len(),
            out@ == head + contenders_text(ranked@, i as nat),
        decreases ranked@.len() - i,
    {
        let ghost before = contenders_text(ranked@, i as nat);
        let line = render_contender(&ranked[i]);
        out.append(line.as_str());
        assert(head + before + line@ == head + (before + line@));
        i += 1;
    }
    out.append("\n(reflects cached posts; run `inderes forum refresh-all` for a current picture)\n");
    out
}

/// One thread among others, in a line.
fn render_contender(c: &Contender) -> (r: String)
    ensures
        r@ == contender_text(*c),
{
    let mut line = text::pad_left(c.pace.ratio_text.as_str(), 6);
    line.append("  ");
    line.append(text::pad_left(text::show_i64(c.pace.current).as_str(), 7).as_str());
    line.append("  ");
    line.append(text::pad_left(c.pace.baseline_text.as_str(), 5).as_str());
    line.append("  #");
    line.append(text::show_i64(c.id).as_str());
    line.append(" ");
    match &c.title {
        Some(t) => line.append(t.as_str()),
        None => line.append("(untitled)"),
    }
    line.append("\n");
    line
}

/// The highest count is at least as high as each count, and is one of them, unless none of them
/// is above one.
pub proof fn law_highest_is_the_highest(series: Seq<(String, i64)>)
    ensures
        highest(series) >= 1,
        forall|i: int| 0 <= i < series.len() ==> (#[trigger] series[i]).1 <= highest(series),
        highest(series) == 1 || exists|i: int|
            0 <= i < series.len() && (#[trigger] series[i]).1 == highest(series),
    decreases series.len(),
{
    if series.len() > 0 {
        let before = series.drop_last();
        law_highest_is_the_highest(before);
        assert forall|i: int| 0 <= i < series.len() implies (#[trigger] series[i]).1 <= highest(
            series,
        ) by {
            if i < before.len() {
                assert(before[i] == series[i]);
            }
        }
        if highest(series) != 1 {
            if series.last().1 > highest(before) {
                assert(series[series.len() - 1].1 == highest(series));
            } else {
                let i = choose|i: int|
                    0 <= i < before.len() && (#[trigger] before[i]).1 == highest(before);
                assert(series[i] == before[i]);
            }
        }
    }
}

proof fn lemma_periods_add(a: Seq<(String, i64)>, b: Seq<(String, i64)>, max: int)
    ensures
        periods_text(a + b, max) == periods_text(a, max) + periods_text(b, max),
    decreases b.len(),
{
    if b.len() == 0 {
        assert(a + b == a);
        assert(periods_text(a, max) + Seq::<char>::empty() == periods_text(a, max));
    } else {
        lemma_periods_add(a, b.drop_last(), max);
        assert((a + b).drop_last() == a + b.drop_last());
        let line = period_text(b.last().0@, b.last().1 as int, max);
        assert(periods_text(a, max) + (periods_text(b.drop_last(), max) + line) == periods_text(
            a,
            max,
        ) + periods_text(b.drop_last(), max) + line);
    }
}

/// Every period has its line, in its place among the others, below a heading that names the
/// thread.
pub proof fn law_every_period_is_shown(
    topic_id: int,
    bucket: Seq<char>,
    a: Seq<(String, i64)>,
    p: (String, i64),
    b: Seq<(String, i64)>,
)
    ensures
        ({
            let max = highest(a.push(p) + b);
            activity_text(topic_id, bucket, a.push(p) + b) == "Activity for topic #"@
                + text::int_text(topic_id) + " (by "@ + bucket + ")\n"@ + periods_text(a, max)
                + period_text(p.0@, p.1 as int, max) + periods_text(b, max)
        }),
{
    let max = highest(a.push(p) + b);
    lemma_periods_add(a.push(p), b, max);
    assert(a.push(p).drop_last() == a);
    let head = "Activity for topic #"@ + text::int_text(topic_id) + " (by "@ + bucket + ")\n"@;
    let x = periods_text(a, max);
    let y = period_text(p.0@, p.1 as int, max);
    let z = periods_text(b, max);
    assert(head + (x + y + z) == head + x + y + z);
}

/// The line of a period begins with the period, and ends with a bar as long as the count is of
/// the highest; its count reads back.
pub proof fn law_period_shows_its_count(period: Seq<char>, n: int, max: int)
    requires
        i64::MIN <= n <= i64::MAX,
    ensures
        text::begins(period_text(period, n, max), period),
        text::holds(period_text(period, n, max), text::int_text(n)),
        text::parsed_int(text::int_text(n)) == Some(n),
        exists|head: Seq<char>| #[trigger]
            (head + text::repeated('█', bar_len(n, max)) + "\n"@) == period_text(period, n, max),
{
    text::lemma_int_reads_back(n);
    let name = text::padded_right(period, 10) + "  "@;
    let count = text::padded_left(text::int_text(n), 5);
    let bar = "  "@ + text::repeated('█', bar_len(n, max)) + "\n"@;
    assert(period_text(period, n, max).subrange(0, period.len() as int) == period);
    let blanks = text::repeated(' ', 5 - text::int_text(n).len());
    text::lemma_holds(name + blanks, text::int_text(n), bar);
    assert(name + blanks + text::int_text(n) + bar == period_text(period, n, max));
    let head = name + count + "  "@;
    assert(head + text::repeated('█', bar_len(n, max)) + "\n"@ == period_text(period, n, max));
}

proof fn lemma_value_words()
    ensures
        "period"@.len() == 6,
        "count"@.len() == 5 && "count"@[0] == 'c',
        "current"@.len() == 7,
        "baseline_avg"@.len() == 12,
        "ratio"@.len() == 5 && "ratio"@[0] == 'r',
        "bucket"@.len() == 6,
        "periods"@.len() == 7,
        "momentum"@.len() == 8,
        "id"@.len() == 2,
        "title"@.len() == 5 && "title"@[0] == 't',
        "bucket"@[0] == 'b',
{
    reveal_strlit("period");
    reveal_strlit("count");
    reveal_strlit("current");
    reveal_strlit("baseline_avg");
    reveal_strlit("ratio");
    reveal_strlit("bucket");
    reveal_strlit("periods");
    reveal_strlit("momentum");
    reveal_strlit("id");
    reveal_strlit("title");
}

/// Activity as JSON has every period with its count, in order, and the momentum exactly where it
/// is known.
pub proof fn law_activity_value_has_every_period(
    bucket: Seq<char>,
    series: Seq<(String, i64)>,
    pace: Option<Pace>,
)
    ensures
        ({
            let v = activity_value(bucket, series, pace);
            let periods = v.items_field("periods"@);
            &&& v.field("bucket"@) == Some(JsonView::Str(bucket))
            &&& periods is Some
            &&& periods->0.len() == series.len()
            &&& forall|i: int|
                0 <= i < series.len() ==> (#[trigger] periods->0[i]).field("period"@) == Some(
                    JsonView::Str(series[i].0@),
                ) && periods->0[i].field("count"@) == Some(JsonView::Int(series[i].1 as int))
            &&& pace is None ==> v.field("momentum"@) is None
            &&& pace matches Some(p) ==> {
                let m = json::value_or_null(v.field("momentum"@));
                &&& m.field("current"@) == Some(JsonView::Int(p.current as int))
                &&& m.field("baseline_avg"@) == Some(p.baseline@)
                &&& m.field("ratio"@) == Some(p.ratio@)
            }
        }),
{
    lemma_value_words();
}

/// The momentum of threads as JSON has every thread, in the order of their rank, each with what
/// is known of it.
pub proof fn law_momentum_value_has_every_thread(ranked: Seq<Contender>, i: int)
    requires
        0 <= i < ranked.len(),
    ensures
        momentum_value(ranked) is Array,
        momentum_value(ranked)->Array_0.len() == ranked.len(),
        ({
            let v = momentum_value(ranked)->Array_0[i];
            let c = ranked[i];
            &&& v.field("id"@) == Some(JsonView::Int(c.id as int))
            &&& v.field("title"@) == Some(json::text_or_null(text::seen_string(c.title)))
            &&& v.field("current"@) == Some(JsonView::Int(c.pace.current as int))
            &&& v.field("baseline_avg"@) == Some(c.pace.baseline@)
            &&& v.field("ratio"@) == Some(c.pace.ratio@)
        }),
{
    lemma_value_words();
}

proof fn lemma_contenders_front(a: Seq<Contender>, b: Seq<Contender>, n: nat)
    requires
        n <= a.len(),
    ensures
        contenders_text(a + b, n) == contenders_text(a, n),
    decreases n,
{
    if n > 0 {
        lemma_contenders_front(a, b, (n - 1) as nat);
        assert((a + b)[n - 1] == a[n - 1]);
    }
}

proof fn lemma_contenders_add(a: Seq<Contender>, b: Seq<Contender>, n: nat)
    requires
        n <= b.len(),
    ensures
        contenders_text(a + b, a.len() + n) == contenders_text(a, a.len()) + contenders_text(b, n),
    decreases n,
{
    lemma_contenders_front(a, b, a.len());
    let x = contenders_text(a, a.len());
    if n == 0 {
        assert(x + Seq::<char>::empty() == x);
    } else {
        let m = (n - 1) as nat;
        lemma_contenders_add(a, b, m);
        let k = a.len() + n;
        assert((a + b)[k - 1] == b[n - 1]);
        assert((k - 1) as nat == a.len() + m);
        assert(contenders_text(a + b, k) == contenders_text(a + b, (k - 1) as nat) + contender_text(
            b[n - 1],
        ));
        assert(x + contenders_text(b, m) + contender_text(b[n - 1]) == x + (contenders_text(b, m)
            + contender_text(b[n - 1])));
    }
}

/// Every ranked thread has its line, in its place among the others.
pub proof fn law_every_contender_is_shown(
    bucket: Seq<char>,
    a: Seq<Contender>,
    c: Contender,
    b: Seq<Contender>,
)
    ensures
        momentum_text(bucket, a.push(c) + b) == "Cross-topic momentum (by "@ + bucket
            + ", current vs baseline)\n"@ + " ratio  current    avg  topic\n"@ + contenders_text(
            a,
            a.len(),
        ) + contender_text(c) + contenders_text(b, b.len())
            + "\n(reflects cached posts; run `inderes forum refresh-all` for a current picture)\n"@,
{
    let all = a.push(c) + b;
    lemma_contenders_add(a.push(c), b, b.len());
    lemma_contenders_front(a, seq![c], a.len());
    assert(a + seq![c] == a.push(c));
    let head = "Cross-topic momentum (by "@ + bucket + ", current vs baseline)\n"@
        + " ratio  current    avg  topic\n"@;
    let x = contenders_text(a, a.len());
    let y = contender_text(c);
    let z = contenders_text(b, b.len());
    assert(contenders_text(a.push(c), a.push(c).len()) == x + y);
    assert(contenders_text(all, all.len()) == x + y + z);
    assert(head + (x + y + z) == head + x + y + z);
}

proof fn lemma_line_holds(a: Seq<char>, part: Seq<char>, width: int, b: Seq<char>)
    ensures
        text::holds(a + text::padded_left(part, width) + b, part),
{
    let blanks = text::repeated(' ', width - part.len());
    text::lemma_holds(a + blanks, part, b);
    assert(a + text::padded_left(part, width) + b == a + blanks + part + b);
}

proof fn lemma_tail(a: Seq<char>, b: Seq<char>, c: Seq<char>)
    ensures
        a + (b + c) == a + b + c,
{
}

/// The line of a ranked thread shows its ratio, its posts of late, what is usual for it, its
/// number and its title.
pub proof fn law_contender_is_shown_in_full(c: Contender)
    ensures
        text::holds(contender_text(c), c.pace.ratio_text@),
        text::holds(contender_text(c), text::int_text(c.pace.current as int)),
        text::holds(contender_text(c), c.pace.baseline_text@),
        text::holds(contender_text(c), text::int_text(c.id as int)),
        c.title matches Some(t) ==> text::holds(contender_text(c), t@),
{
    let s1 = text::padded_left(c.pace.ratio_text@, 6);
    let s2 = s1 + "  "@;
    let current = text::padded_left(text::int_text(c.pace.current as int), 7);
    let s3 = s2 + current;
    let s4 = s3 + "  "@;
    let base = text::padded_left(c.pace.baseline_text@, 5);
    let s5 = s4 + base;
    let s6 = s5 + "  #"@;
    let id = text::int_text(c.id as int);
    let s7 = s6 + id;
    let s8 = s7 + " "@;
    let title = text::or_text(text::seen_string(c.title), "(untitled)"@);
    let s9 = s8 + title;
    let whole = contender_text(c);
    assert(whole == s9 + "\n"@);
    text::lemma_holds(s8, title, "\n"@);
    let t8 = title + "\n"@;
    lemma_tail(s8, title, "\n"@);
    let t7 = " "@ + t8;
    lemma_tail(s7, " "@, t8);
    assert(whole == s7 + t7);
    text::lemma_holds(s6, id, t7);
    let t6 = id + t7;
    lemma_tail(s6, id, t7);
    let t5 = "  #"@ + t6;
    lemma_tail(s5, "  #"@, t6);
    assert(whole == s5 + t5);
    lemma_line_holds(s4, c.pace.baseline_text@, 5, t5);
    let t4 = base + t5;
    lemma_tail(s4, base, t5);
    let t3 = "  "@ + t4;
    lemma_tail(s3, "  "@, t4);
    assert(whole == s3 + t3);
    lemma_line_holds(s2, text::int_text(c.pace.current as int), 7, t3);
    let t2 = current + t3;
    lemma_tail(s2, current, t3);
    let t1 = "  "@ + t2;
    lemma_tail(s1, "  "@, t2);
    assert(whole == s1 + t1);
    lemma_line_holds(seq![], c.pace.ratio_text@, 6, t1);
    assert(Seq::<char>::empty() + s1 == s1);
}

/// The bar of a period is as long as its count is of the highest, in parts of twenty-four,
/// rounded to the nearest.
pub proof fn law_bar_is_as_long_as_the_count(n: int, max: int)
    requires
        0 < max,
        n <= max,
    ensures
        n > 0 ==> 10000 * (max * bar_len(n, max) - 24 * n) <= 5001 * max,
        n > 0 ==> 10000 * (24 * n - max * bar_len(n, max)) <= 5001 * max,
        n <= 0 ==> bar_len(n, max) == 0,
{
    if n > 0 {
        double::law_share_is_the_nearest(n, max);
    }
}

/// In a ranking no thread stands above one of a higher rank; every thread is in it, and threads
/// of the same rank stand as they came.
pub proof fn law_ranking_is_by_rank(
    threads: Seq<Contender>,
    ranked: Seq<Contender>,
    i: int,
    j: int,
    rank: i64,
)
    requires
        descending(ranked),
        forall|rank: i64| #[trigger] of_rank(ranked, rank) == of_rank(threads, rank),
        0 <= i < j < ranked.len(),
    ensures
        ranked[i].rank >= ranked[j].rank,
        forall|c: Contender| #[trigger] threads.contains(c) <==> ranked.contains(c),
        ranked.filter(|c: Contender| c.rank == rank) == threads.filter(
            |c: Contender| c.rank == rank,
        ),
{
    assert forall|c: Contender| #[trigger] threads.contains(c) <==> ranked.contains(c) by {
        assert(of_rank(ranked, c.rank) == of_rank(threads, c.rank));
        lemma_in_rank(threads, c);
        lemma_in_rank(ranked, c);
    }
    assert(of_rank(ranked, rank) == of_rank(threads, rank));
}

proof fn lemma_in_rank(v: Seq<Contender>, c: Contender)
    ensures
        of_rank(v, c.rank).contains(c) <==> v.contains(c),
{
    let pred = |x: Contender| x.rank == c.rank;
    let some = v.filter(pred);
    if v.contains(c) {
        let i = choose|i: int| 0 <= i < v.len() && v[i] == c;
        v.lemma_filter_contains(pred, i);
    }
    if some.contains(c) {
        v.lemma_filter_contains_rev(pred, c);
    }
}

} // verus!
