//! What the subcommands say and decide around the calls that they make.

use vstd::prelude::*;

use crate::activity;
use crate::activity::{Contender, Pace};
use crate::cache;
use crate::cache::{Cache, CacheView, CachedTopic};
use crate::forum;
use crate::json;
use crate::json::{Json, JsonMap, JsonView};
use crate::moment;
use crate::moment::Moment;
use crate::query;
use crate::query::QueryResult;
use crate::render;
use crate::skill::Host;
use crate::storage::Tokens;
use crate::text;

verus! {

/// Where the server is, unless another place is given.
pub const DEFAULT_ENDPOINT: &'static str = "https://mcp.inderes.com/";

/// The version of this program.
pub const VERSION: &'static str = "2026.4.26";

/// How much is logged, by how often more was asked for.
pub fn log_level(verbose: u8) -> (r: &'static str)
    ensures
        r@ == (if verbose == 0 {
            "warn"@
        } else if verbose == 1 {
            "info"@
        } else {
            "debug"@
        }),
{
    if verbose == 0 {
        "warn"
    } else if verbose == 1 {
        "info"
    } else {
        "debug"
    }
}

/// Where the server is.
pub fn endpoint(given: Option<String>) -> (r: String)
    ensures
        r@ == text::or_text(text::seen_string(given), DEFAULT_ENDPOINT@),
{
    match given {
        Some(e) => e,
        None => DEFAULT_ENDPOINT.to_owned(),
    }
}

// --- answers of the person ----------------------------------------------------------------

/// Whether a character is a letter, small or capital.
pub open spec fn is_letter(c: char, small: char, capital: char) -> bool {
    c == small || c == capital
}

/// Whether an answer means yes: `y` or `yes` in small letters or capitals, with white space
/// around it or not.
pub open spec fn means_yes(answer: Seq<char>) -> bool {
    let a = text::trimmed(answer);
    ||| a.len() == 1 && is_letter(a[0], 'y', 'Y')
    ||| a.len() == 3 && is_letter(a[0], 'y', 'Y') && is_letter(a[1], 'e', 'E') && is_letter(
        a[2],
        's',
        'S',
    )
}

/// Whether an answer means yes.
pub fn confirm(answer: &str) -> (r: bool)
    ensures
        r == means_yes(answer@),
{
    let a = text::trim(answer);
    let v = text::chars_of(a.as_str());
    if v.len() == 1 {
        v[0] == 'y' || v[0] == 'Y'
    } else if v.len() == 3 {
        (v[0] == 'y' || v[0] == 'Y') && (v[1] == 'e' || v[1] == 'E') && (v[2] == 's' || v[2] == 'S')
    } else {
        false
    }
}

// --- signing in ---------------------------------------------------------------------------

/// Who signed in, by what the provider says.
pub open spec fn who(info: Option<JsonView>) -> Seq<char> {
    match info {
        None => "unknown"@,
        Some(v) => match v.text_field("preferred_username"@) {
            Some(name) => name,
            None => text::or_text(v.text_field("email"@), "unknown"@),
        },
    }
}

/// What is said after a sign-in.
pub fn login(info: Option<&Json>) -> (r: String)
    ensures
        r@ == "Signed in as "@ + who(json::seen(info)) + ".\n"@,
{
    let name = match info {
        None => "unknown",
        Some(v) => match v.get_str("preferred_username") {
            Some(name) => name,
            None => match v.get_str("email") {
                Some(mail) => mail,
                None => "unknown",
            },
        },
    };
    let mut r = "Signed in as ".to_owned();
    r.append(name);
    r.append(".\n");
    r
}

/// What is said of the sign-in at the time `now`.
pub open spec fn sign_in_text(expires_at: Option<Moment>, now: Moment) -> Seq<char> {
    match expires_at {
        None => "Not signed in. Run `inderes login`.\n"@,
        Some(at) => {
            let left = moment::whole_seconds(at.total() - now.total());
            if left > 0 {
                "Signed in. Access token valid for "@ + text::int_text(left) + "s.\n"@
            } else {
                "Signed in (refresh required on next call).\n"@
            }
        },
    }
}

/// When the access token expires, where there is one.
pub open spec fn expiry_of(tokens: Option<Tokens>) -> Option<Moment> {
    match tokens {
        Some(t) => Some(t.expires_at),
        None => None,
    }
}

/// What is said of the sign-in. What counts as the present is whatever the clock says during
/// the call.
pub fn whoami(tokens: &Option<Tokens>) -> (r: String)
    requires
        tokens matches Some(t) ==> t.expires_at.wf(),
    ensures
        exists|now: Moment| now.wf() && r@ == #[trigger] sign_in_text(expiry_of(*tokens), now),
{
    whoami_at(tokens, moment::now())
}

/// What is said of the sign-in at the time `now`.
pub fn whoami_at(tokens: &Option<Tokens>, now: Moment) -> (r: String)
    requires
        now.wf(),
        tokens matches Some(t) ==> t.expires_at.wf(),
    ensures
        r@ == sign_in_text(expiry_of(*tokens), now),
{
    match tokens {
        None => "Not signed in. Run `inderes login`.\n".to_owned(),
        Some(t) => {
            let left = t.expires_at.seconds_since(&now);
            if left > 0 {
                let mut r = "Signed in. Access token valid for ".to_owned();
                r.append(text::show_i64(left).as_str());
                r.append("s.\n");
                r
            } else {
                "Signed in (refresh required on next call).\n".to_owned()
            }
        },
    }
}

// --- tools --------------------------------------------------------------------------------

/// The result of a tool whose data are used; where the tool failed, in words what it said.
pub fn call_raw(tool: &str, result: Json) -> (r: Result<Json, String>)
    ensures
        match r {
            Ok(v) => !render::is_error(result@) && v@ == result@,
            Err(e) => render::is_error(result@) && e@ == "MCP tool "@ + tool@
                + " returned an error: "@ + text::trimmed(render::result_text(result@)),
        },
{
    match render::result_error_text(&result) {
        None => Ok(result),
        Some(msg) => {
            let mut e = "MCP tool ".to_owned();
            e.append(tool);
            e.append(" returned an error: ");
            e.append(msg.as_str());
            Err(e)
        },
    }
}

/// Which tool a call is for.
#[derive(Debug)]
pub enum CallTarget {
    /// The list of tools.
    List,
    /// One tool.
    Tool(String),
}

/// Which tool a call is for; where that is not said, in words so.
pub fn call_target(list: bool, tool: Option<String>) -> (r: Result<CallTarget, String>)
    ensures
        if list {
            r matches Ok(CallTarget::List)
        } else {
            match tool {
                Some(t) => r matches Ok(CallTarget::Tool(name)) && name@ == t@,
                None => r matches Err(e) && e@
                    == "missing tool name; pass --list to see all tools"@,
            }
        },
{
    if list {
        return Ok(CallTarget::List);
    }
    match tool {
        Some(t) => Ok(CallTarget::Tool(t)),
        None => Err("missing tool name; pass --list to see all tools".to_owned()),
    }
}

/// The first line of a text.
pub open spec fn first_line(s: Seq<char>) -> Seq<char> {
    let lines = text::text_lines(s);
    if lines.len() > 0 {
        lines[0]
    } else {
        ""@
    }
}

/// The line of one tool: its name, and the first line of what is said of it.
pub open spec fn tool_text(t: JsonView) -> Seq<char> {
    text::padded_right(text::or_text(t.text_field("name"@), "?"@), 32) + "  "@ + (match t.text_field(
        "description"@,
    ) {
        Some(d) => first_line(d),
        None => ""@,
    }) + "\n"@
}

/// The lines of tools.
pub open spec fn tools_text(tools: Seq<JsonView>) -> Seq<char>
    decreases tools.len(),
{
    if tools.len() == 0 {
        seq![]
    } else {
        tools_text(tools.drop_last()) + tool_text(tools.last())
    }
}

/// The list of tools.
pub open spec fn tool_list_text(result: JsonView, as_json: bool) -> Seq<char> {
    if as_json {
        json::pretty_of_json(result) + "\n"@
    } else {
        match result.items_field("tools"@) {
            Some(tools) => tools_text(tools),
            None => seq![],
        }
    }
}

/// Shows the list of tools.
pub fn call_list(result: &Json, as_json: bool) -> (r: String)
    ensures
        r@ == tool_list_text(result@, as_json),
{
    if as_json {
        let mut out = result.to_pretty();
        out.append("\n");
        return out;
    }
    let mut out = String::new();
    if let Some(tools) = result.get_array("tools") {
        let ghost all = json::items_view(tools@);
        let mut i: usize = 0;
        while i < tools.len()
            invariant
                i <= tools@.len(),
                all == json::items_view(tools@),
                out@ == tools_text(all.take(i as int)),
            decreases tools@.len() - i,
        {
            assert(all.take(i + 1).drop_last() == all.take(i as int));
            out.append(render_tool(&tools[i]).as_str());
            i += 1;
        }
        assert(all.take(i as int) == all);
    }
    out
}

/// The line of one tool.
fn render_tool(t: &Json) -> (r: String)
    ensures
        r@ == tool_text(t@),
{
    let name = match t.get_str("name") {
        Some(n) => n,
        None => "?",
    };
    let mut line = text::pad_right(name, 32);
    line.append("  ");
    match t.get_str("description") {
        Some(d) => {
            let lines = text::lines(d);
            assert(text::texts(lines@).len() == lines@.len());
            if lines.len() > 0 {
                assert(text::texts(lines@)[0] == lines@[0]@);
                line.append(lines[0].as_str());
            } else {
                line.append("");
            }
        },
        None => line.append(""),
    }
    line.append("\n");
    line
}

// --- forum: topics ------------------------------------------------------------------------

/// What is said where a topic is not given by its number.
pub open spec fn bad_topic_text(id: Seq<char>) -> Seq<char> {
    "invalid topic id "@ + text::debug_text(id) + ": expected a number"@
}

/// The number of a topic; where it is none, in words so.
pub fn parse_topic_id(id: &str) -> (r: Result<i64, String>)
    ensures
        match text::parsed_int(id@) {
            Some(n) => r == Ok::<i64, String>(n as i64),
            None => r matches Err(e) && e@ == bad_topic_text(id@),
        },
{
    match text::parse_i64(id) {
        Some(n) => Ok(n),
        None => {
            let mut e = "invalid topic id ".to_owned();
            e.append(text::quote(id).as_str());
            e.append(": expected a number");
            Err(e)
        },
    }
}

/// A cached thread as a value.
pub open spec fn thread_value(v: CacheView, topic_id: int) -> JsonView {
    let title = match cache::topic_at(v.topics, topic_id) {
        Some(t) => text::or_text(t.title, ""@),
        None => ""@,
    };
    JsonView::Object(
        Map::<Seq<char>, JsonView>::empty().insert("id"@, JsonView::Int(topic_id)).insert(
            "title"@,
            JsonView::Str(title),
        ).insert(
            "post_stream"@,
            JsonView::Object(
                Map::<Seq<char>, JsonView>::empty().insert(
                    "posts"@,
                    JsonView::Array(
                        cache::shown_posts(v.posts, cache::thread(v.posts, topic_id)),
                    ),
                ),
            ),
        ),
    )
}

/// What is said where nothing of a topic is cached.
pub open spec fn no_topic_text(id: Seq<char>) -> Seq<char> {
    "forum topic "@ + id + " not found or has no posts"@
}

/// A cached thread as a value; where there is none, in words so.
pub fn topic_envelope(cache: &Cache, topic_id: i64, id: &str) -> (r: Result<Json, String>)
    requires
        cache.wf(),
    ensures
        match r {
            Ok(v) => cache::topic_posts(cache@.posts, topic_id as int).len() > 0 && v@
                == thread_value(cache@, topic_id as int),
            Err(e) => cache::topic_posts(cache@.posts, topic_id as int).len() == 0 && e@
                == no_topic_text(id@),
        },
{
    if cache.post_count(topic_id) == 0 {
        let mut e = "forum topic ".to_owned();
        e.append(id);
        e.append(" not found or has no posts");
        return Err(e);
    }
    let title = match cache.topic_title(topic_id) {
        Some(t) => t,
        None => "".to_owned(),
    };
    let posts = cache.get_posts(topic_id);
    let mut stream = JsonMap::new();
    stream.insert("posts", Json::Array(posts));
    let mut out = JsonMap::new();
    out.insert("id", Json::Int(topic_id));
    out.insert("title", Json::text(title.as_str()));
    out.insert("post_stream", Json::Object(stream));
    Ok(Json::Object(out))
}

/// Shows a thread: as it is where `as_json` asks for it, else rendered.
pub fn show_topic(v: &Json, as_json: bool) -> (r: String)
    ensures
        r@ == (if as_json {
            json::pretty_of_json(v@) + "\n"@
        } else {
            forum::topic_text(v@)
        }),
{
    if as_json {
        let mut out = v.to_pretty();
        out.append("\n");
        out
    } else {
        forum::render_topic(v)
    }
}

/// Shows the outcome of a search for threads: as it is where `as_json` asks for it, else
/// rendered.
pub fn show_forum_search(v: &Json, as_json: bool) -> (r: String)
    ensures
        r@ == (if as_json {
            json::pretty_of_json(v@) + "\n"@
        } else {
            forum::search_text(v@)
        }),
{
    if as_json {
        let mut out = v.to_pretty();
        out.append("\n");
        out
    } else {
        forum::render_forum_search(v)
    }
}

/// What is said where no topic is cached.
pub open spec fn no_topics_text() -> Seq<char> {
    "No cached topics. Cache one with: inderes forum topic <id>\n"@
}

/// One topic of the inventory as a value.
pub open spec fn cached_value(t: CachedTopic) -> JsonView {
    JsonView::Object(
        Map::<Seq<char>, JsonView>::empty().insert("id"@, JsonView::Int(t.id as int)).insert(
            "title"@,
            json::text_or_null(text::seen_string(t.title)),
        ).insert("posts"@, JsonView::Int(t.posts as int)).insert(
            "synced_at"@,
            json::text_or_null(text::seen_string(t.synced_at)),
        ),
    )
}

/// One topic of the inventory in a line.
pub open spec fn cached_text(t: CachedTopic) -> Seq<char> {
    "#"@ + text::padded_right(text::int_text(t.id as int), 7) + " "@ + text::padded_left(
        text::nat_text(t.posts as nat),
        6,
    ) + " posts  synced "@ + text::or_text(text::seen_string(t.synced_at), "?"@) + "  "@
        + text::or_text(text::seen_string(t.title), "(untitled)"@) + "\n"@
}

/// The first `n` topics of the inventory, a line each.
pub open spec fn cached_lines(topics: Seq<CachedTopic>, n: nat) -> Seq<char>
    decreases n,
{
    if n == 0 || n > topics.len() {
        seq![]
    } else {
        cached_lines(topics, (n - 1) as nat) + cached_text(topics[n - 1])
    }
}

/// The inventory.
pub open spec fn inventory_text(topics: Seq<CachedTopic>, as_json: bool) -> Seq<char> {
    if as_json {
        json::pretty_of_json(
            JsonView::Array(topics.map_values(|t: CachedTopic| cached_value(t))),
        ) + "\n"@
    } else if topics.len() == 0 {
        no_topics_text()
    } else {
        cached_lines(topics, topics.len())
    }
}

/// Shows that there is no cache: an empty list where `as_json` asks for it, else in words.
pub fn no_topics(as_json: bool) -> (r: String)
    ensures
        r@ == (if as_json {
            "[]\n"@
        } else {
            no_topics_text()
        }),
{
    if as_json {
        "[]\n".to_owned()
    } else {
        "No cached topics. Cache one with: inderes forum topic <id>\n".to_owned()
    }
}

/// Shows the inventory.
pub fn forum_topics(topics: &Vec<CachedTopic>, as_json: bool) -> (r: String)
    ensures
        r@ == inventory_text(topics@, as_json),
{
    let mut i: usize = 0;
    if as_json {
        let mut items: Vec<Json> = Vec::new();
        while i < topics.len()
            invariant
                i <= topics@.len(),
                items@.len() == i,
                forall|j: int| 0 <= j < i ==> (#[trigger] items@[j])@ == cached_value(topics@[j]),
            decreases topics@.len() - i,
        {
            items.push(topic_json(&topics[i]));
            i += 1;
        }
        assert(json::items_view(items@) =~= topics@.map_values(
            |t: CachedTopic| cached_value(t),
        ));
        let mut out = Json::Array(items).to_pretty();
        out.append("\n");
        return out;
    }
    if topics.len() == 0 {
        return no_topics(false);
    }
    let mut out = String::new();
    while i < topics.len()
        invariant
            i <= topics@.len(),
            out@ == cached_lines(topics@, i as nat),
        decreases topics@.len() - i,
    {
        out.append(render_cached(&topics[i]).as_str());
        i += 1;
    }
    out
}

/// One topic of the inventory as a value.
fn topic_json(t: &CachedTopic) -> (r: Json)
    ensures
        r@ == cached_value(*t),
{
    let mut m = JsonMap::new();
    m.insert("id", Json::Int(t.id));
    let title = match &t.title {
        Some(s) => Json::text(s.as_str()),
        None => Json::Null,
    };
    m.insert("title", title);
    m.insert("posts", Json::UInt(t.posts as u64));
    let synced = match &t.synced_at {
        Some(s) => Json::text(s.as_str()),
        None => Json::Null,
    };
    m.insert("synced_at", synced);
    Json::Object(m)
}

/// One topic of the inventory in a line.
fn render_cached(t: &CachedTopic) -> (r: String)
    ensures
        r@ == cached_text(*t),
{
    let mut line = "#".to_owned();
    line.append(text::pad_right(text::show_i64(t.id).as_str(), 7).as_str());
    line.append(" ");
    line.append(text::pad_left(text::show_usize(t.posts).as_str(), 6).as_str());
    line.append(" posts  synced ");
    match &t.synced_at {
        Some(s) => line.append(s.as_str()),
        None => line.append("?"),
    }
    line.append("  ");
    match &t.title {
        Some(s) => line.append(s.as_str()),
        None => line.append("(untitled)"),
    }
    line.append("\n");
    line
}

// --- forum: clearing ----------------------------------------------------------------------

/// What clearing the cache comes to.
#[derive(Debug)]
pub enum ClearStep {
    /// There is no cache.
    NoCache,
    /// What was asked for makes no sense; in words why.
    Wrong(String),
    /// The person has to be asked whether everything is to go.
    Ask,
    /// The person did not want it.
    Abort,
    /// One topic goes.
    Topic(i64),
    /// Everything goes.
    All,
}

/// Whether `step` is what clearing comes to. Without a cache nothing else matters; everything
/// goes only where that was asked for and the person agreed, beforehand or when asked.
pub open spec fn is_clear_step(
    has_cache: bool,
    id: Option<Seq<char>>,
    all: bool,
    yes: bool,
    answer: Option<Seq<char>>,
    step: ClearStep,
) -> bool {
    if !has_cache {
        step is NoCache
    } else {
        match (id, all) {
            (Some(_), true) => step matches ClearStep::Wrong(e) && e@
                == "pass either a topic id or --all, not both"@,
            (None, false) => step matches ClearStep::Wrong(e) && e@
                == "specify a topic id, or --all to clear the whole cache"@,
            (Some(t), false) => match text::parsed_int(t) {
                Some(n) => step matches ClearStep::Topic(m) && m == n,
                None => step matches ClearStep::Wrong(e) && e@ == bad_topic_text(t),
            },
            (None, true) => if yes {
                step is All
            } else {
                match answer {
                    None => step is Ask,
                    Some(a) => if means_yes(a) {
                        step is All
                    } else {
                        step is Abort
                    },
                }
            },
        }
    }
}

/// What clearing the cache comes to. `answer` is what the person said, once asked.
pub fn forum_clear(
    has_cache: bool,
    id: Option<&str>,
    all: bool,
    yes: bool,
    answer: Option<&str>,
) -> (r: ClearStep)
    ensures
        is_clear_step(has_cache, text::seen_text(id), all, yes, text::seen_text(answer), r),
{
    if !has_cache {
        return ClearStep::NoCache;
    }
    match (id, all) {
        (Some(_), true) => ClearStep::Wrong("pass either a topic id or --all, not both".to_owned()),
        (None, false) => {
            ClearStep::Wrong("specify a topic id, or --all to clear the whole cache".to_owned())
        },
        (Some(t), false) => match parse_topic_id(t) {
            Ok(n) => ClearStep::Topic(n),
            Err(e) => ClearStep::Wrong(e),
        },
        (None, true) => {
            if yes {
                return ClearStep::All;
            }
            match answer {
                None => ClearStep::Ask,
                Some(a) => if confirm(a) {
                    ClearStep::All
                } else {
                    ClearStep::Abort
                },
            }
        },
    }
}

/// The cache after a step of clearing.
pub open spec fn cleared(v: CacheView, step: ClearStep) -> CacheView {
    match step {
        ClearStep::Topic(n) => CacheView {
            posts: cache::without_topic(v.posts, n as int),
            topics: v.topics.remove(n as int),
        },
        ClearStep::All => CacheView { posts: Map::empty(), topics: Map::empty() },
        _ => v,
    }
}

/// What is said of a step of clearing.
pub open spec fn clear_text(step: ClearStep) -> Seq<char> {
    match step {
        ClearStep::NoCache => "No cache to clear.\n"@,
        ClearStep::Wrong(e) => e@,
        ClearStep::Ask => "Clear the entire forum cache? [y/N] "@,
        ClearStep::Abort => "Aborted.\n"@,
        ClearStep::Topic(n) => "Cleared topic "@ + text::int_text(n as int) + " from the cache.\n"@,
        ClearStep::All => "Cleared the entire forum cache.\n"@,
    }
}

/// Does a step of clearing, and says what is said of it.
pub fn clear_cache(cache: &mut Cache, step: &ClearStep) -> (r: String)
    requires
        old(cache).wf(),
    ensures
        final(cache).wf(),
        final(cache)@ == cleared(old(cache)@, *step),
        r@ == clear_text(*step),
{
    match step {
        ClearStep::NoCache => "No cache to clear.\n".to_owned(),
        ClearStep::Wrong(e) => e.clone(),
        ClearStep::Ask => "Clear the entire forum cache? [y/N] ".to_owned(),
        ClearStep::Abort => "Aborted.\n".to_owned(),
        ClearStep::Topic(n) => {
            cache.clear_topic(*n);
            let mut r = "Cleared topic ".to_owned();
            r.append(text::show_i64(*n).as_str());
            r.append(" from the cache.\n");
            r
        },
        ClearStep::All => {
            cache.clear_all();
            "Cleared the entire forum cache.\n".to_owned()
        },
    }
}

/// The whole cache is cleared only after the person agreed to it.
pub proof fn law_cache_is_cleared_only_if_agreed(
    has_cache: bool,
    id: Option<Seq<char>>,
    all: bool,
    yes: bool,
    answer: Option<Seq<char>>,
    step: ClearStep,
)
    requires
        is_clear_step(has_cache, id, all, yes, answer, step),
        step is All,
    ensures
        all && id is None,
        yes || (answer is Some && means_yes(answer->0)),
{
}

// --- forum: refreshing --------------------------------------------------------------------

/// How far the refresh of all topics has come.
#[derive(Debug)]
pub struct RefreshTally {
    topics: usize,
    new_posts: u64,
    incomplete: usize,
}

/// How the refresh of one topic ended.
#[derive(Debug)]
pub enum TopicRefresh {
    /// It is read up to its end.
    Complete,
    /// It is not, but what is cached can be served.
    Interrupted,
    /// It failed; in words why.
    Failed(String),
}

/// The line on one topic.
pub open spec fn refresh_text(topic_id: int, new_posts: nat, outcome: TopicRefresh) -> Seq<char> {
    match outcome {
        TopicRefresh::Complete => "#"@ + text::int_text(topic_id) + ": +"@ + text::nat_text(
            new_posts,
        ) + " new"@ + ""@ + "\n"@,
        TopicRefresh::Interrupted => "#"@ + text::int_text(topic_id) + ": +"@ + text::nat_text(
            new_posts,
        ) + " new"@ + " (interrupted)"@ + "\n"@,
        TopicRefresh::Failed(e) => "#"@ + text::int_text(topic_id) + ": refresh failed: "@ + e@
            + "\n"@,
    }
}

/// Whether `after_it` is the count once a topic was added to `before_it`, of which there were
/// `before` posts and are now `after`: a topic that failed brings no posts, and only one that
/// is read up to its end is complete.
pub open spec fn counted(
    before_it: RefreshTally,
    after_it: RefreshTally,
    before: usize,
    after: usize,
    outcome: TopicRefresh,
) -> bool {
    &&& after_it.topics() == before_it.topics() + 1
    &&& after_it.new_posts() == (if outcome is Failed {
        before_it.new_posts() as int
    } else {
        before_it.new_posts() + (after - before)
    })
    &&& after_it.incomplete() == (if outcome is Complete {
        before_it.incomplete()
    } else {
        before_it.incomplete() + 1
    })
}

/// What is said at the end of a refresh.
pub open spec fn summary_text(tally: RefreshTally) -> Seq<char> {
    "Refreshed "@ + text::nat_text(tally.topics()) + " topic(s), "@ + text::nat_text(
        tally.new_posts(),
    ) + " new post(s).\n"@
}

/// What is said where topics were not read up to their end.
pub open spec fn incomplete_text(tally: RefreshTally) -> Seq<char> {
    text::nat_text(tally.incomplete())
        + " topic(s) not fully refreshed (rate limit / network) — re-run to continue"@
}

impl RefreshTally {
    /// How many topics were refreshed.
    pub closed spec fn topics(&self) -> nat {
        self.topics as nat
    }

    /// How many posts came.
    pub closed spec fn new_posts(&self) -> nat {
        self.new_posts as nat
    }

    /// How many topics are not read up to their end.
    pub closed spec fn incomplete(&self) -> nat {
        self.incomplete as nat
    }

    /// Whether no more topics are incomplete than were refreshed.
    pub open spec fn wf(&self) -> bool {
        self.incomplete() <= self.topics()
    }

    /// Nothing was refreshed.
    pub fn new() -> (r: RefreshTally)
        ensures
            r.wf(),
            r.topics() == 0,
            r.new_posts() == 0,
            r.incomplete() == 0,
    {
        RefreshTally { topics: 0, new_posts: 0, incomplete: 0 }
    }

    /// Counts one more topic, of which there were `before` posts and are now `after`, and says
    /// what is said of it.
    pub fn add_topic(
        &mut self,
        topic_id: i64,
        before: usize,
        after: usize,
        outcome: &TopicRefresh,
    ) -> (r: String)
        requires
            old(self).wf(),
            before <= after,
            old(self).topics() < usize::MAX,
            old(self).new_posts() + (after - before) <= u64::MAX,
        ensures
            final(self).wf(),
            counted(*old(self), *final(self), before, after, *outcome),
            r@ == refresh_text(topic_id as int, (after - before) as nat, *outcome),
    {
        self.topics = self.topics + 1;
        let mut line = "#".to_owned();
        line.append(text::show_i64(topic_id).as_str());
        match outcome {
            TopicRefresh::Complete => {
                self.new_posts = self.new_posts + (after - before) as u64;
                line.append(": +");
                line.append(text::show_usize(after - before).as_str());
                line.append(" new");
                line.append("");
            },
            TopicRefresh::Interrupted => {
                self.new_posts = self.new_posts + (after - before) as u64;
                self.incomplete = self.incomplete + 1;
                line.append(": +");
                line.append(text::show_usize(after - before).as_str());
                line.append(" new");
                line.append(" (interrupted)");
            },
            TopicRefresh::Failed(e) => {
                self.incomplete = self.incomplete + 1;
                line.append(": refresh failed: ");
                line.append(e.as_str());
            },
        }
        line.append("\n");
        line
    }

    /// What is said at the end.
    pub fn summary(&self) -> (r: String)
        ensures
            r@ == summary_text(*self),
    {
        let mut r = "Refreshed ".to_owned();
        r.append(text::show_usize(self.topics).as_str());
        r.append(" topic(s), ");
        r.append(text::show_u64(self.new_posts).as_str());
        r.append(" new post(s).\n");
        r
    }

    /// Whether everything was refreshed; where not, in words how much was not.
    pub fn verdict(&self) -> (r: Result<(), String>)
        ensures
            r is Ok <==> self.incomplete() == 0,
            r matches Err(e) ==> e@ == incomplete_text(*self),
    {
        if self.incomplete == 0 {
            return Ok(());
        }
        let mut e = text::show_usize(self.incomplete);
        e.append(" topic(s) not fully refreshed (rate limit / network) — re-run to continue");
        Err(e)
    }
}

/// The refresh of all topics: which are to be read, how many were, and what came of it.
pub struct RefreshRun {
    ids: Vec<i64>,
    tally: RefreshTally,
}

impl RefreshRun {
    /// The topics that are refreshed, in order.
    pub closed spec fn ids(&self) -> Seq<int> {
        cache::as_ints(self.ids@)
    }

    /// What came of the topics so far.
    pub closed spec fn tally(&self) -> RefreshTally {
        self.tally
    }

    /// Whether no more topics were counted than there are.
    pub open spec fn wf(&self) -> bool {
        self.tally().wf() && self.tally().topics() <= self.ids().len() <= usize::MAX
    }

    /// The refresh of every topic that is in the cache, from the lowest number up; none where
    /// there are no topics.
    pub fn begin(cache: &Cache) -> (r: Option<RefreshRun>)
        requires
            cache.wf(),
        ensures
            match r {
                Some(run) => {
                    &&& run.wf()
                    &&& cache::numbers_topics(cache@.topics, run.ids())
                    &&& run.ids().len() > 0
                    &&& run.tally().topics() == 0
                    &&& run.tally().new_posts() == 0
                    &&& run.tally().incomplete() == 0
                },
                None => cache::numbers_topics(cache@.topics, Seq::<int>::empty()),
            },
    {
        let ids = cache.cached_topic_ids();
        assert(cache::as_ints(ids@).len() == ids@.len());
        if ids.len() == 0 {
            assert(cache::as_ints(ids@) =~= Seq::<int>::empty());
            None
        } else {
            assert(ids@.len() == ids.len());
            Some(RefreshRun { ids, tally: RefreshTally::new() })
        }
    }

    /// The topic to be read next, whatever became of those before it; none once all were read.
    pub fn next_topic(&self) -> (r: Option<i64>)
        requires
            self.wf(),
        ensures
            match r {
                Some(id) => self.tally().topics() < self.ids().len() && id
                    == self.ids()[self.tally().topics() as int],
                None => self.tally().topics() == self.ids().len(),
            },
    {
        if self.tally.topics < self.ids.len() {
            Some(self.ids[self.tally.topics])
        } else {
            None
        }
    }

    /// Whether so many new posts can be counted.
    pub fn can_count(&self, new_posts: usize) -> (r: bool)
        ensures
            r == (self.tally().new_posts() + new_posts <= u64::MAX),
    {
        self.tally.new_posts <= u64::MAX - new_posts as u64
    }

    /// Counts the topic that was read, of which there were `before` posts and are now `after`,
    /// says what is said of it, and goes on to the next, however the reading ended.
    pub fn topic_read(&mut self, before: usize, after: usize, outcome: &TopicRefresh) -> (r: String)
        requires
            old(self).wf(),
            old(self).tally().topics() < old(self).ids().len(),
            before <= after,
            old(self).tally().new_posts() + (after - before) <= u64::MAX,
        ensures
            final(self).wf(),
            final(self).ids() == old(self).ids(),
            counted(old(self).tally(), final(self).tally(), before, after, *outcome),
            r@ == refresh_text(
                old(self).ids()[old(self).tally().topics() as int],
                (after - before) as nat,
                *outcome,
            ),
    {
        let topic_id = self.ids[self.tally.topics];
        self.tally.add_topic(topic_id, before, after, outcome)
    }

    /// What is said at the end, once all topics were read.
    pub fn summary(&self) -> (r: String)
        ensures
            r@ == summary_text(self.tally()),
    {
        self.tally.summary()
    }

    /// Whether everything was refreshed; where not, in words how much was not.
    pub fn verdict(&self) -> (r: Result<(), String>)
        ensures
            r is Ok <==> self.tally().incomplete() == 0,
            r matches Err(e) ==> e@ == incomplete_text(self.tally()),
    {
        self.tally.verdict()
    }
}

/// What is said where there is nothing to refresh.
pub fn nothing_to_refresh() -> (r: String)
    ensures
        r@ == "No cached topics to refresh.\n"@,
{
    "No cached topics to refresh.\n".to_owned()
}

// --- forum: queries and activity ----------------------------------------------------------

/// What goes to the person: what was asked for, and what is said of it besides.
#[derive(Debug)]
pub struct Output {
    pub out: String,
    pub err: String,
}

/// The outcome of a query: an array of objects where `as_json` asks for it, else a table, with
/// the number of rows said besides.
pub fn forum_query(result: &QueryResult, as_json: bool) -> (r: Output)
    requires
        !as_json ==> result.wf(),
    ensures
        r.out@ == (if as_json {
            json::pretty_of_json(
                query::query_value(text::texts(result.columns@), result.rows_view()),
            ) + "\n"@
        } else {
            query::table_text(text::texts(result.columns@), result.rows_view())
        }),
        r.err@ == (if as_json {
            seq![]
        } else {
            query::count_text(result.rows@.len()) + "\n"@
        }),
{
    if as_json {
        let mut out = query::query_json(result).to_pretty();
        out.append("\n");
        Output { out, err: String::new() }
    } else {
        let mut err = query::row_count(result.rows.len());
        err.append("\n");
        Output { out: query::render_query_table(result), err }
    }
}

/// What is said where nothing of a topic is cached that could show its activity.
pub open spec fn no_posts_text(id: Seq<char>) -> Seq<char> {
    "no cached posts for topic "@ + id + " — run `inderes forum topic "@ + id + "` first"@
}

/// What is shown of the activity of a thread.
pub open spec fn shown_activity(
    topic_id: int,
    bucket: Seq<char>,
    series: Seq<(String, i64)>,
    pace: Option<Pace>,
    label: Seq<char>,
    as_json: bool,
) -> Seq<char> {
    if as_json {
        json::pretty_of_json(activity::activity_value(bucket, series, pace)) + "\n"@
    } else {
        activity::activity_text(topic_id, bucket, series) + (match pace {
            Some(p) => activity::pace_text(p, bucket, label),
            None => seq![],
        }) + "(reflects cached posts; run `inderes forum topic` to refresh)\n"@
    }
}

/// The activity of a thread; without posts, in words that there are none. `label` says in a
/// word what the pace amounts to.
pub fn forum_activity(
    id: &str,
    topic_id: i64,
    bucket: &str,
    series: &Vec<(String, i64)>,
    pace: &Option<Pace>,
    label: &str,
    as_json: bool,
) -> (r: Result<String, String>)
    ensures
        match r {
            Ok(out) => series@.len() > 0 && out@ == shown_activity(
                topic_id as int,
                bucket@,
                series@,
                *pace,
                label@,
                as_json,
            ),
            Err(e) => series@.len() == 0 && e@ == no_posts_text(id@),
        },
{
    if series.len() == 0 {
        let mut e = "no cached posts for topic ".to_owned();
        e.append(id);
        e.append(" — run `inderes forum topic ");
        e.append(id);
        e.append("` first");
        return Err(e);
    }
    if as_json {
        let mut out = activity::activity_json(bucket, series, pace).to_pretty();
        out.append("\n");
        return Ok(out);
    }
    let mut out = activity::render_activity(topic_id, bucket, series);
    match pace {
        Some(p) => out.append(activity::render_pace(p, bucket, label).as_str()),
        None => {
            assert(out@ + Seq::<char>::empty() == out@);
        },
    }
    out.append("(reflects cached posts; run `inderes forum topic` to refresh)\n");
    Ok(out)
}

/// Shows that there is no cache to rank: an empty list where `as_json` asks for it, else in
/// words.
pub fn no_momentum(as_json: bool) -> (r: String)
    ensures
        r@ == (if as_json {
            "[]\n"@
        } else {
            "No cached topics. Cache some with: inderes forum topic <id>\n"@
        }),
{
    if as_json {
        "[]\n".to_owned()
    } else {
        "No cached topics. Cache some with: inderes forum topic <id>\n".to_owned()
    }
}

/// What is shown of threads against one another, once they are ranked.
pub open spec fn shown_momentum(bucket: Seq<char>, ranked: Seq<Contender>, as_json: bool) -> Seq<
    char,
> {
    if as_json {
        json::pretty_of_json(activity::momentum_value(ranked)) + "\n"@
    } else {
        activity::momentum_text(bucket, ranked)
    }
}

/// Ranks threads and shows them: the liveliest first, equals in the order in which they came.
pub fn forum_momentum(bucket: &str, threads: Vec<Contender>, as_json: bool) -> (r: (
    Vec<Contender>,
    String,
))
    ensures
        r.0@.len() == threads@.len(),
        activity::descending(r.0@),
        forall|rank: i64| #[trigger]
            activity::of_rank(r.0@, rank) == activity::of_rank(threads@, rank),
        r.1@ == shown_momentum(bucket@, r.0@, as_json),
{
    let ranked = activity::rank_threads(threads);
    let shown = if as_json {
        let mut out = activity::momentum_json(&ranked).to_pretty();
        out.append("\n");
        out
    } else {
        activity::render_momentum(bucket, &ranked)
    };
    (ranked, shown)
}

// --- removing -----------------------------------------------------------------------------

/// The paths of the skills that are there, by host.
pub open spec fn present_paths(found: Seq<(Host, bool)>, home: Seq<char>, windows: bool) -> Seq<
    Seq<char>,
>
    decreases found.len(),
{
    if found.len() == 0 {
        seq![]
    } else if found.last().1 {
        present_paths(found.drop_last(), home, windows).push(
            found.last().0.place(home, windows),
        )
    } else {
        present_paths(found.drop_last(), home, windows)
    }
}

/// The paths of the skills that are there.
pub fn installed_skill_paths(found: &Vec<(Host, bool)>, home: &str, windows: bool) -> (r: Vec<
    String,
>)
    ensures
        text::texts(r@) == present_paths(found@, home@, windows),
{
    let mut paths: Vec<String> = Vec::new();
    let mut i: usize = 0;
    while i < found.len()
        invariant
            i <= found@.len(),
            text::texts(paths@) == present_paths(found@.take(i as int), home@, windows),
        decreases found@.len() - i,
    {
        let ghost before = paths@;
        assert(found@.take(i + 1).drop_last() == found@.take(i as int));
        if found[i].1 {
            let path = found[i].0.default_install_path(home, windows);
            paths.push(path);
            assert(text::texts(paths@) == text::texts(before).push(path@));
        }
        i += 1;
    }
    assert(found@.take(i as int) == found@);
    paths
}

/// The lines that announce which skills go.
pub open spec fn skills_text(skills: Seq<Seq<char>>) -> Seq<char>
    decreases skills.len(),
{
    if skills.len() == 0 {
        seq![]
    } else {
        skills_text(skills.drop_last()) + "  - delete skill at "@ + skills.last() + "\n"@
    }
}

/// What is announced before anything is removed. `skills` are those that go, where skills are
/// to go at all.
pub open spec fn uninstall_text(
    token_path: Seq<char>,
    skills: Option<Seq<Seq<char>>>,
    exe: Seq<char>,
) -> Seq<char> {
    "This will:\n"@ + "  - clear stored tokens at "@ + token_path + "\n"@ + (match skills {
        None => seq![],
        Some(s) => if s.len() == 0 {
            "  - (no installed skill files found to remove)\n"@
        } else {
            skills_text(s)
        },
    }) + "  - print the command you should run yourself to remove the binary at "@ + exe + "\n"@
}

/// What an optional list of texts is.
pub open spec fn seen_texts(o: Option<Vec<String>>) -> Option<Seq<Seq<char>>> {
    match o {
        Some(v) => Some(text::texts(v@)),
        None => None,
    }
}

/// What is announced before anything is removed.
pub fn uninstall(token_path: &str, skills: &Option<Vec<String>>, exe: &str) -> (r: String)
    ensures
        r@ == uninstall_text(token_path@, seen_texts(*skills), exe@),
{
    let mut out = "This will:\n".to_owned();
    out.append("  - clear stored tokens at ");
    out.append(token_path);
    out.append("\n");
    let ghost head = out@;
    match skills {
        None => {
            assert(head + Seq::<char>::empty() == head);
        },
        Some(list) => {
            assert(text::texts(list@).len() == list@.len());
            if list.len() == 0 {
                out.append("  - (no installed skill files found to remove)\n");
            } else {
                let ghost all = text::texts(list@);
                assert(head + skills_text(all.take(0)) == head);
                let mut i: usize = 0;
                while i < list.len()
                    invariant
                        i <= list@.len(),
                        all == text::texts(list@),
                        out@ == head + skills_text(all.take(i as int)),
                    decreases list@.len() - i,
                {
                    let ghost before = skills_text(all.take(i as int));
                    assert(all.take(i + 1).drop_last() == all.take(i as int));
                    out.append("  - delete skill at ");
                    out.append(list[i].as_str());
                    out.append("\n");
                    assert(out@ == head + (before + "  - delete skill at "@ + all[i as int]
                        + "\n"@));
                    i += 1;
                }
                assert(all.take(i as int) == all);
            }
        },
    }
    out.append("  - print the command you should run yourself to remove the binary at ");
    out.append(exe);
    out.append("\n");
    out
}

/// How removing goes on.
#[derive(Clone, Copy, Debug, PartialEq, Eq, Structural)]
pub enum UninstallStep {
    /// The person has to be asked.
    Ask,
    /// The person did not want it: nothing is removed.
    Abort,
    /// Tokens and skills are removed.
    Remove,
}

/// How removing goes on: only where the person agreed, beforehand or when asked, is anything
/// removed.
pub open spec fn uninstall_goes(yes: bool, answer: Option<Seq<char>>) -> UninstallStep {
    if yes {
        UninstallStep::Remove
    } else {
        match answer {
            None => UninstallStep::Ask,
            Some(a) => if means_yes(a) {
                UninstallStep::Remove
            } else {
                UninstallStep::Abort
            },
        }
    }
}

/// How removing goes on. `answer` is what the person said, once asked.
pub fn uninstall_step(yes: bool, answer: Option<&str>) -> (r: UninstallStep)
    ensures
        r == uninstall_goes(yes, text::seen_text(answer)),
{
    if yes {
        return UninstallStep::Remove;
    }
    match answer {
        None => UninstallStep::Ask,
        Some(a) => if confirm(a) {
            UninstallStep::Remove
        } else {
            UninstallStep::Abort
        },
    }
}

/// What is said at the end of removing: how the program itself is deleted.
pub open spec fn farewell_text(exe: Seq<char>, windows: bool) -> Seq<char> {
    "\nTo complete removal, delete the binary yourself:\n"@ + (if windows {
        "  Remove-Item \""@ + exe + "\"\n"@
    } else {
        "  rm "@ + exe + "\n"@
    }) + "\n(The CLI cannot delete its own running binary cleanly across all platforms,\n"@
        + "so we leave that final step in your hands.)\n"@
}

/// What is said at the end of removing.
pub fn uninstall_farewell(exe: &str, windows: bool) -> (r: String)
    ensures
        r@ == farewell_text(exe@, windows),
{
    let mut line = String::new();
    if windows {
        line = "  Remove-Item \"".to_owned();
        line.append(exe);
        line.append("\"\n");
    } else {
        line = "  rm ".to_owned();
        line.append(exe);
        line.append("\n");
    }
    let mut out = "\nTo complete removal, delete the binary yourself:\n".to_owned();
    out.append(line.as_str());
    out.append("\n(The CLI cannot delete its own running binary cleanly across all platforms,\n");
    out.append("so we leave that final step in your hands.)\n");
    out
}

/// Nothing is removed unless the person agreed.
pub proof fn law_nothing_is_removed_unless_agreed(yes: bool, answer: Option<Seq<char>>)
    requires
        uninstall_goes(yes, answer) == UninstallStep::Remove,
    ensures
        yes || (answer is Some && means_yes(answer->0)),
{
}

// --- laws ---------------------------------------------------------------------------------

/// Whether a text is one of the words for yes: `y` or `yes`, in letters of either case.
pub open spec fn is_yes(s: Seq<char>) -> bool {
    ||| s == seq!['y']
    ||| s == seq!['Y']
    ||| s.len() == 3 && (s[0] == 'y' || s[0] == 'Y') && (s[1] == 'e' || s[1] == 'E') && (s[2] == 's'
        || s[2] == 'S')
}

/// An answer agrees exactly where it is a word for yes, whatever white space stands around it;
/// an empty one does not.
pub proof fn law_only_yes_agrees(a: Seq<char>, body: Seq<char>, b: Seq<char>)
    requires
        forall|i: int| 0 <= i < a.len() ==> text::is_white(#[trigger] a[i]),
        forall|i: int| 0 <= i < b.len() ==> text::is_white(#[trigger] b[i]),
        body.len() > 0 ==> !text::is_white(body[0]) && !text::is_white(body.last()),
    ensures
        means_yes(a + body + b) <==> is_yes(body),
        !means_yes(a),
{
    text::law_white_ends_are_taken_off(a, body, b);
    if body.len() == 1 {
        assert(body == seq![body[0]]);
    }
    text::law_white_ends_are_taken_off(a, seq![], seq![]);
    assert(a + Seq::<char>::empty() + Seq::<char>::empty() == a);
}

/// Who signed in is the user name where there is one, else the address of the mail, else
/// nobody known.
pub proof fn law_user_name_comes_first(v: JsonView)
    ensures
        v.field("preferred_username"@) matches Some(JsonView::Str(n)) ==> who(Some(v)) == n,
        v.field("preferred_username"@) is None ==> (v.field("email"@) matches Some(JsonView::Str(m))
            ==> who(Some(v)) == m),
        v.field("preferred_username"@) is None && v.field("email"@) is None ==> who(Some(v))
            == "unknown"@,
        who(None) == "unknown"@,
{
}

/// How long a sign-in lasts is said in whole seconds, as long as there is at least one.
pub proof fn law_time_left_is_said(at: Moment, now: Moment, n: int)
    requires
        n * 1_000_000_000 <= at.total() - now.total() < (n + 1) * 1_000_000_000,
    ensures
        n > 0 ==> sign_in_text(Some(at), now) == "Signed in. Access token valid for "@
            + text::int_text(n) + "s.\n"@,
        n <= 0 ==> sign_in_text(Some(at), now) == "Signed in (refresh required on next call).\n"@,
        sign_in_text(None, now) == "Not signed in. Run `inderes login`.\n"@,
{
    moment::law_fractions_are_dropped(at.total() - now.total());
    moment::law_fractions_are_dropped(now.total() - at.total());
}

proof fn lemma_tools_add(a: Seq<JsonView>, b: Seq<JsonView>)
    ensures
        tools_text(a + b) == tools_text(a) + tools_text(b),
    decreases b.len(),
{
    if b.len() == 0 {
        assert(a + b == a);
        assert(tools_text(a) + Seq::<char>::empty() == tools_text(a));
    } else {
        lemma_tools_add(a, b.drop_last());
        assert((a + b).drop_last() == a + b.drop_last());
        assert(tools_text(a) + (tools_text(b.drop_last()) + tool_text(b.last())) == tools_text(a)
            + tools_text(b.drop_last()) + tool_text(b.last()));
    }
}

/// Every tool is listed, in its place among the others.
pub proof fn law_every_tool_is_listed(
    result: JsonView,
    a: Seq<JsonView>,
    t: JsonView,
    b: Seq<JsonView>,
)
    requires
        result.field("tools"@) == Some(JsonView::Array(a.push(t) + b)),
    ensures
        tool_list_text(result, false) == tools_text(a) + tool_text(t) + tools_text(b),
        tool_list_text(result, true) == json::pretty_of_json(result) + "\n"@,
{
    lemma_tools_add(a.push(t), b);
    assert(a.push(t).drop_last() == a);
}

/// A tool is listed with its name, and the first line of what is said of it.
pub proof fn law_tool_is_listed_by_name(t: JsonView, name: Seq<char>, about: Seq<char>)
    requires
        t.field("name"@) == Some(JsonView::Str(name)),
        t.field("description"@) == Some(JsonView::Str(about)),
    ensures
        text::begins(tool_text(t), name),
        text::holds(tool_text(t), first_line(about) + "\n"@),
{
    let blanks = text::repeated(' ', 32 - name.len());
    let line = first_line(about);
    assert(tool_text(t) == name + blanks + "  "@ + line + "\n"@);
    lemma_line_begins(name, blanks, "  "@, line, "\n"@);
    lemma_line_ends(name + blanks + "  "@, line, "\n"@);
}

proof fn lemma_line_begins(
    name: Seq<char>,
    blanks: Seq<char>,
    gap: Seq<char>,
    line: Seq<char>,
    end: Seq<char>,
)
    ensures
        text::begins(name + blanks + gap + line + end, name),
{
    let all = name + blanks + gap + line + end;
    assert(all.subrange(0, name.len() as int) =~= name);
}

proof fn lemma_line_ends(head: Seq<char>, line: Seq<char>, end: Seq<char>)
    ensures
        text::holds(head + line + end, line + end),
{
    let all = head + line + end;
    let n = head.len() as int;
    assert(all.subrange(n, n + (line + end).len()) =~= line + end);
    assert(text::at(all, line + end, n));
}

/// The first line of a text is what stands before its first line end.
pub proof fn law_first_line_ends_at_the_line_end(line: Seq<char>, rest: Seq<char>)
    requires
        !line.contains('\n'),
        line.len() == 0 || line.last() != '\r',
    ensures
        first_line(line + seq!['\n'] + rest) == line,
        first_line(line + seq!['\r', '\n'] + rest) == line,
        first_line(line) == line,
{
    text::law_line_feed_ends_a_line(line, rest);
    reveal_strlit("");
    if line.len() == 0 {
        assert(line == ""@);
    }
}

proof fn lemma_thread_words()
    ensures
        "id"@.len() == 2,
        "title"@.len() == 5 && "title"@[0] == 't',
        "post_stream"@.len() == 11,
        "posts"@.len() == 5 && "posts"@[0] == 'p',
        "synced_at"@.len() == 9,
{
    reveal_strlit("id");
    reveal_strlit("title");
    reveal_strlit("post_stream");
    reveal_strlit("posts");
    reveal_strlit("synced_at");
}

/// A thread out of the cache is shown whole: every post of the topic is in it, in the order of
/// the thread, under the number and the title of the topic.
pub proof fn law_cached_thread_is_shown_whole(v: CacheView, topic_id: int, i: int)
    requires
        i64::MIN <= topic_id <= i64::MAX,
        0 <= i < cache::thread(v.posts, topic_id).len(),
    ensures
        ({
            let ids = cache::thread(v.posts, topic_id);
            let shown = cache::shown_posts(v.posts, ids);
            let value = thread_value(v, topic_id);
            &&& value.field("id"@) == Some(JsonView::Int(topic_id))
            &&& v.topics.contains_key(topic_id) ==> (v.topics[topic_id].title matches Some(t)
                ==> value.field("title"@) == Some(JsonView::Str(t)))
            &&& shown.len() == ids.len()
            &&& shown[i] == cache::shown_post(ids[i], v.posts[ids[i]])
            &&& forum::topic_text(value) == forum::topic_heading(value) + forum::posts_text(
                shown.take(i),
            ) + forum::post_text(shown[i]) + forum::posts_text(shown.skip(i + 1))
        }),
{
    lemma_thread_words();
    let ids = cache::thread(v.posts, topic_id);
    let shown = cache::shown_posts(v.posts, ids);
    let value = thread_value(v, topic_id);
    let stream = JsonView::Object(
        Map::<Seq<char>, JsonView>::empty().insert("posts"@, JsonView::Array(shown)),
    );
    assert(value.field("post_stream"@) == Some(stream));
    assert(shown.take(i).push(shown[i]) + shown.skip(i + 1) == shown);
    forum::law_every_post_is_shown(value, stream, shown.take(i), shown[i], shown.skip(i + 1));
}

proof fn lemma_cached_front(a: Seq<CachedTopic>, b: Seq<CachedTopic>, n: nat)
    requires
        n <= a.len(),
    ensures
        cached_lines(a + b, n) == cached_lines(a, n),
    decreases n,
{
    if n > 0 {
        lemma_cached_front(a, b, (n - 1) as nat);
        assert((a + b)[n - 1] == a[n - 1]);
    }
}

proof fn lemma_cached_add(a: Seq<CachedTopic>, b: Seq<CachedTopic>, n: nat)
    requires
        n <= b.len(),
    ensures
        cached_lines(a + b, a.len() + n) == cached_lines(a, a.len()) + cached_lines(b, n),
    decreases n,
{
    lemma_cached_front(a, b, a.len());
    let x = cached_lines(a, a.len());
    if n == 0 {
        assert(x + Seq::<char>::empty() == x);
    } else {
        let m = (n - 1) as nat;
        lemma_cached_add(a, b, m);
        let k = a.len() + n;
        assert((a + b)[k - 1] == b[n - 1]);
        assert((k - 1) as nat == a.len() + m);
        assert(cached_lines(a + b, k) == cached_lines(a + b, (k - 1) as nat) + cached_text(
            b[n - 1],
        ));
        assert(x + cached_lines(b, m) + cached_text(b[n - 1]) == x + (cached_lines(b, m)
            + cached_text(b[n - 1])));
    }
}

/// Every topic in the cache is listed, in its place among the others.
pub proof fn law_every_cached_topic_is_listed(
    a: Seq<CachedTopic>,
    t: CachedTopic,
    b: Seq<CachedTopic>,
)
    ensures
        inventory_text(a.push(t) + b, false) == cached_lines(a, a.len()) + cached_text(t)
            + cached_lines(b, b.len()),
{
    let all = a.push(t) + b;
    lemma_cached_add(a.push(t), b, b.len());
    lemma_cached_front(a, seq![t], a.len());
    assert(a + seq![t] == a.push(t));
    assert(cached_lines(a.push(t), a.push(t).len()) == cached_lines(a, a.len()) + cached_text(t));
    assert(cached_lines(all, all.len()) == cached_lines(a, a.len()) + cached_text(t) + cached_lines(
        b,
        b.len(),
    ));
}

/// The line of a topic begins with its number and ends with its title; it says how many posts
/// are cached, and when it was read.
pub proof fn law_topic_line_names_the_topic(t: CachedTopic)
    ensures
        text::begins(cached_text(t), "#"@ + text::int_text(t.id as int)),
        text::holds(cached_text(t), text::nat_text(t.posts as nat) + " posts  synced "@),
        t.synced_at matches Some(at) ==> text::holds(cached_text(t), at@),
        t.title matches Some(title) ==> text::holds(cached_text(t), "  "@ + title@ + "\n"@),
{
    let id = text::int_text(t.id as int);
    let head = "#"@ + text::padded_right(id, 7) + " "@;
    let count = text::nat_text(t.posts as nat);
    let blanks = text::repeated(' ', 6 - count.len());
    let at = text::or_text(text::seen_string(t.synced_at), "?"@);
    let title = text::or_text(text::seen_string(t.title), "(untitled)"@);
    lemma_topic_line(head, blanks, count, " posts  synced "@, at, "  "@, title, "\n"@);
    assert(cached_text(t) == head + (blanks + count) + " posts  synced "@ + at + "  "@ + title
        + "\n"@);
    assert(head.subrange(0, id.len() as int + 1) == "#"@ + id) by {
        reveal_strlit("#");
    }
    reveal_strlit("#");
    assert(cached_text(t).subrange(0, id.len() as int + 1) == head.subrange(0, id.len() as int + 1));
    assert(("#"@ + id).len() == 1 + id.len());
}

proof fn lemma_topic_line(
    head: Seq<char>,
    blanks: Seq<char>,
    count: Seq<char>,
    posts: Seq<char>,
    at: Seq<char>,
    gap: Seq<char>,
    title: Seq<char>,
    end: Seq<char>,
)
    ensures
        ({
            let line = head + (blanks + count) + posts + at + gap + title + end;
            &&& text::holds(line, count + posts)
            &&& text::holds(line, at)
            &&& text::holds(line, gap + title + end)
        }),
{
    let line = head + (blanks + count) + posts + at + gap + title + end;
    text::lemma_holds(head + blanks, count + posts, at + gap + title + end);
    assert(head + blanks + (count + posts) + (at + gap + title + end) == line);
    text::lemma_holds(head + (blanks + count) + posts, at, gap + title + end);
    assert(head + (blanks + count) + posts + at + (gap + title + end) == line);
    text::lemma_holds(head + (blanks + count) + posts + at, gap + title + end, seq![]);
    assert(head + (blanks + count) + posts + at + (gap + title + end) + Seq::<char>::empty()
        == line);
}

/// A topic in the cache as JSON: its number, its title, how many posts there are, and when it was
/// read.
pub proof fn law_cached_topic_as_json(t: CachedTopic)
    ensures
        cached_value(t).field("id"@) == Some(JsonView::Int(t.id as int)),
        cached_value(t).field("title"@) == Some(json::text_or_null(text::seen_string(t.title))),
        cached_value(t).field("posts"@) == Some(JsonView::Int(t.posts as int)),
        cached_value(t).field("synced_at"@) == Some(
            json::text_or_null(text::seen_string(t.synced_at)),
        ),
{
    lemma_thread_words();
}

/// One topic is cleared where one was named by its number, the whole cache where all of it was
/// meant and that was agreed to; both at once, neither, or a topic that is no number are wrong.
pub proof fn law_what_was_named_is_cleared(
    id: Option<Seq<char>>,
    all: bool,
    yes: bool,
    answer: Option<Seq<char>>,
    step: ClearStep,
)
    requires
        is_clear_step(true, id, all, yes, answer, step),
    ensures
        step is Wrong <==> (id is Some && all) || (id is None && !all) || (id is Some
            && text::parsed_int(id->0) is None),
        !all ==> (id matches Some(t) ==> (text::parsed_int(t) matches Some(n) ==> step is Topic
            && step->Topic_0 == n)),
        all && id is None && yes ==> step is All,
        all && id is None && !yes ==> (answer matches Some(a) ==> (step is All <==> means_yes(a)) && (
        step is Abort <==> !means_yes(a))),
        all && id is None && !yes && answer is None ==> step is Ask,
{
}

/// Clearing a topic takes that topic and its posts, clearing all takes everything, and nothing
/// else takes anything.
pub proof fn law_only_what_was_named_is_taken(v: CacheView, step: ClearStep, topic: int, post: int)
    ensures
        step matches ClearStep::Topic(n) ==> {
            &&& cleared(v, step).topics.contains_key(topic) <==> v.topics.contains_key(topic)
                && topic != n
            &&& cleared(v, step).topics.contains_key(topic) ==> cleared(v, step).topics[topic]
                == v.topics[topic]
            &&& cleared(v, step).posts.contains_key(post) <==> v.posts.contains_key(post)
                && v.posts[post].topic_id != n
            &&& cleared(v, step).posts.contains_key(post) ==> cleared(v, step).posts[post]
                == v.posts[post]
        },
        step is All ==> !cleared(v, step).topics.contains_key(topic) && !cleared(
            v,
            step,
        ).posts.contains_key(post),
        !(step is Topic) && !(step is All) ==> cleared(v, step) == v,
{
}

/// What is said of a topic that was read: its number, and how many posts are new, or why it
/// failed.
pub proof fn law_refresh_says_what_came(topic_id: int, new_posts: nat, outcome: TopicRefresh)
    ensures
        text::begins(refresh_text(topic_id, new_posts, outcome), "#"@ + text::int_text(topic_id)),
        !(outcome is Failed) ==> text::holds(
            refresh_text(topic_id, new_posts, outcome),
            ": +"@ + text::nat_text(new_posts) + " new"@,
        ),
        outcome matches TopicRefresh::Failed(e) ==> text::holds(
            refresh_text(topic_id, new_posts, outcome),
            e@,
        ),
        outcome is Interrupted ==> text::holds(
            refresh_text(topic_id, new_posts, outcome),
            "(interrupted)"@,
        ),
{
    let head = "#"@ + text::int_text(topic_id);
    let said = refresh_text(topic_id, new_posts, outcome);
    assert(said.subrange(0, head.len() as int) == head);
    let count = ": +"@ + text::nat_text(new_posts) + " new"@;
    match outcome {
        TopicRefresh::Complete => {
            text::lemma_holds(head, count, ""@ + "\n"@);
            assert(head + count + (""@ + "\n"@) == said);
        },
        TopicRefresh::Interrupted => {
            text::lemma_holds(head, count, " (interrupted)"@ + "\n"@);
            assert(head + count + (" (interrupted)"@ + "\n"@) == said);
            reveal_strlit(" (interrupted)");
            reveal_strlit("(interrupted)");
            reveal_strlit(" ");
            assert(" (interrupted)"@ == " "@ + "(interrupted)"@);
            text::lemma_holds(head + count + " "@, "(interrupted)"@, "\n"@);
            assert(head + count + " "@ + "(interrupted)"@ + "\n"@ == said);
        },
        TopicRefresh::Failed(e) => {
            text::lemma_holds(head + ": refresh failed: "@, e@, "\n"@);
        },
    }
}

/// Each topic that was read counts once, with the posts that are new; one that failed brings
/// none, and one that was not read to its end counts as incomplete.
pub proof fn law_each_topic_counts_once(
    before_it: RefreshTally,
    after_it: RefreshTally,
    before: usize,
    after: usize,
    outcome: TopicRefresh,
)
    requires
        counted(before_it, after_it, before, after, outcome),
    ensures
        after_it.topics() - before_it.topics() == 1,
        !(outcome is Failed) ==> after_it.new_posts() - before_it.new_posts() == after - before,
        outcome is Failed ==> after_it.new_posts() == before_it.new_posts(),
        outcome is Complete ==> after_it.incomplete() == before_it.incomplete(),
        !(outcome is Complete) ==> after_it.incomplete() - before_it.incomplete() == 1,
{
}

/// The summary says how many topics were read and how many posts came; where topics are
/// incomplete it says how many.
pub proof fn law_summary_says_the_counts(tally: RefreshTally)
    ensures
        text::begins(summary_text(tally), "Refreshed "@ + text::nat_text(tally.topics())),
        text::holds(
            summary_text(tally),
            ", "@ + text::nat_text(tally.new_posts()) + " new post(s)"@,
        ),
        text::begins(incomplete_text(tally), text::nat_text(tally.incomplete())),
{
    let said = summary_text(tally);
    let head = "Refreshed "@ + text::nat_text(tally.topics());
    assert(said.subrange(0, head.len() as int) == head);
    lemma_summary_words();
    let count = text::nat_text(tally.new_posts());
    text::lemma_holds(head + " topic(s)"@, ", "@ + count + " new post(s)"@, ".\n"@);
    assert(head + " topic(s)"@ + (", "@ + count + " new post(s)"@) + ".\n"@ == head + (
    " topic(s)"@ + ", "@) + count + (" new post(s)"@ + ".\n"@));
    let less = text::nat_text(tally.incomplete());
    assert(incomplete_text(tally).subrange(0, less.len() as int) == less);
}

proof fn lemma_summary_words()
    ensures
        " topic(s), "@ == " topic(s)"@ + ", "@,
        " new post(s).\n"@ == " new post(s)"@ + ".\n"@,
{
    reveal_strlit(" topic(s), ");
    reveal_strlit(" topic(s)");
    reveal_strlit(", ");
    reveal_strlit(" new post(s).\n");
    reveal_strlit(" new post(s)");
    reveal_strlit(".\n");
}

/// A skill is named for removal exactly where it was found, at the place where its host keeps
/// it.
pub proof fn law_every_skill_found_is_named(
    a: Seq<(Host, bool)>,
    host: Host,
    there: bool,
    b: Seq<(Host, bool)>,
    home: Seq<char>,
    windows: bool,
)
    ensures
        present_paths(a.push((host, there)) + b, home, windows) == (if there {
            present_paths(a, home, windows).push(host.place(home, windows)) + present_paths(
                b,
                home,
                windows,
            )
        } else {
            present_paths(a, home, windows) + present_paths(b, home, windows)
        }),
    decreases b.len(),
{
    let all = a.push((host, there)) + b;
    if b.len() == 0 {
        assert(all.drop_last() == a);
        assert(present_paths(b, home, windows) == Seq::<Seq<char>>::empty());
        let p = present_paths(all, home, windows);
        assert(p + Seq::<Seq<char>>::empty() == p);
    } else {
        law_every_skill_found_is_named(a, host, there, b.drop_last(), home, windows);
        assert(all.drop_last() == a.push((host, there)) + b.drop_last());
        assert(all.last() == b.last());
    }
}

proof fn lemma_skills_add(a: Seq<Seq<char>>, b: Seq<Seq<char>>)
    ensures
        skills_text(a + b) == skills_text(a) + skills_text(b),
    decreases b.len(),
{
    if b.len() == 0 {
        assert(a + b == a);
        assert(skills_text(a) + Seq::<char>::empty() == skills_text(a));
    } else {
        lemma_skills_add(a, b.drop_last());
        assert((a + b).drop_last() == a + b.drop_last());
        let x = skills_text(a);
        let y = skills_text(b.drop_last());
        let last = b.last();
        assert(x + y + "  - delete skill at "@ + last + "\n"@ == x + (y + "  - delete skill at "@
            + last + "\n"@));
    }
}

/// Before anything is removed it is said what will be: where the tokens are, every skill, and
/// where the program is.
pub proof fn law_removal_is_announced(
    token_path: Seq<char>,
    a: Seq<Seq<char>>,
    skill: Seq<char>,
    b: Seq<Seq<char>>,
    exe: Seq<char>,
)
    ensures
        uninstall_text(token_path, Some(a.push(skill) + b), exe) == "This will:\n"@
            + "  - clear stored tokens at "@ + token_path + "\n"@ + (skills_text(a)
            + "  - delete skill at "@ + skill + "\n"@ + skills_text(b))
            + "  - print the command you should run yourself to remove the binary at "@ + exe
            + "\n"@,
{
    lemma_skills_add(a.push(skill), b);
    assert(a.push(skill).drop_last() == a);
}

/// Removal goes ahead where that was agreed to, stops where it was not, and is asked about where
/// nothing was said.
pub proof fn law_removal_goes_by_the_answer(yes: bool, answer: Option<Seq<char>>)
    ensures
        yes ==> uninstall_goes(yes, answer) == UninstallStep::Remove,
        !yes && answer is None ==> uninstall_goes(yes, answer) == UninstallStep::Ask,
        !yes ==> (answer matches Some(a) ==> (uninstall_goes(yes, answer) == UninstallStep::Remove
            <==> means_yes(a)) && (uninstall_goes(yes, answer) == UninstallStep::Abort
            <==> !means_yes(a))),
{
}

/// The last words say how to remove the program itself.
pub proof fn law_farewell_names_the_program(exe: Seq<char>, windows: bool)
    ensures
        !windows ==> text::holds(farewell_text(exe, windows), "  rm "@ + exe + "\n"@),
        windows ==> text::holds(
            farewell_text(exe, windows),
            "  Remove-Item \""@ + exe + "\"\n"@,
        ),
{
    let head = "\nTo complete removal, delete the binary yourself:\n"@;
    let a = "\n(The CLI cannot delete its own running binary cleanly across all platforms,\n"@;
    let b = "so we leave that final step in your hands.)\n"@;
    let line = if windows {
        "  Remove-Item \""@ + exe + "\"\n"@
    } else {
        "  rm "@ + exe + "\n"@
    };
    text::lemma_holds(head, line, a + b);
    assert(head + line + (a + b) == head + line + a + b);
}

/// Activity and momentum are shown as JSON where that was asked for, else as text; the momentum
/// of a thread exactly where it is known.
pub proof fn law_activity_is_shown_as_asked(
    topic_id: int,
    bucket: Seq<char>,
    series: Seq<(String, i64)>,
    pace: Option<Pace>,
    label: Seq<char>,
    ranked: Seq<Contender>,
)
    ensures
        shown_activity(topic_id, bucket, series, pace, label, true) == json::pretty_of_json(
            activity::activity_value(bucket, series, pace),
        ) + "\n"@,
        text::begins(
            shown_activity(topic_id, bucket, series, pace, label, false),
            activity::activity_text(topic_id, bucket, series),
        ),
        pace matches Some(p) ==> text::holds(
            shown_activity(topic_id, bucket, series, pace, label, false),
            activity::pace_text(p, bucket, label),
        ),
        shown_momentum(bucket, ranked, true) == json::pretty_of_json(
            activity::momentum_value(ranked),
        ) + "\n"@,
        shown_momentum(bucket, ranked, false) == activity::momentum_text(bucket, ranked),
{
    let shown = shown_activity(topic_id, bucket, series, pace, label, false);
    let head = activity::activity_text(topic_id, bucket, series);
    assert(shown.subrange(0, head.len() as int) == head);
    let end = "(reflects cached posts; run `inderes forum topic` to refresh)\n"@;
    if let Some(p) = pace {
        text::lemma_holds(head, activity::pace_text(p, bucket, label), end);
    }
}

/// What is said of a clearing names the topic that was cleared, or what was wrong.
pub proof fn law_clearing_says_what_it_did(step: ClearStep)
    ensures
        step matches ClearStep::Topic(n) ==> text::holds(
            clear_text(step),
            "topic "@ + text::int_text(n as int) + " "@,
        ),
        step matches ClearStep::Wrong(e) ==> clear_text(step) == e@,
{
    if let ClearStep::Topic(n) = step {
        let id = text::int_text(n as int);
        reveal_strlit("Cleared topic ");
        reveal_strlit("Cleared ");
        reveal_strlit("topic ");
        reveal_strlit(" from the cache.\n");
        reveal_strlit(" ");
        reveal_strlit("from the cache.\n");
        assert("Cleared topic "@ == "Cleared "@ + "topic "@);
        assert(" from the cache.\n"@ == " "@ + "from the cache.\n"@);
        text::lemma_holds("Cleared "@, "topic "@ + id + " "@, "from the cache.\n"@);
        assert("Cleared "@ + ("topic "@ + id + " "@) + "from the cache.\n"@ == "Cleared "@
            + "topic "@ + id + (" "@ + "from the cache.\n"@));
    }
}

} // verus!
