//! The Inderes forum: addressing a thread, reading a page of posts, rendering.
//!
//! Post bodies arrive as markdown and are kept as they are. `strip_html` cleans the
//! bodies of posts that hold HTML instead.

use vstd::prelude::*;

use crate::json;
use crate::json::{Json, JsonMap, JsonView};
use crate::text;

verus! {

/// The public forum host.
pub const FORUM_HOST: &'static str = "https://forum.inderes.com";

/// Posts per page. The server gives no more than this many at a time.
pub const PAGE_SIZE: i64 = 50;

// --- thread addresses ------------------------------------------------------------

/// The address of a topic: the server goes by the number at the end, so a dash stands
/// in for the words before it.
pub open spec fn thread_address(topic_id: int) -> Seq<char> {
    FORUM_HOST@ + "/t/-/"@ + text::int_text(topic_id)
}

/// The last of the given texts that is an integer.
pub open spec fn last_number(parts: Seq<Seq<char>>) -> Option<int>
    decreases parts.len(),
{
    if parts.len() == 0 {
        None
    } else {
        match text::parsed_int(parts.last()) {
            Some(n) => Some(n),
            None => last_number(parts.drop_last()),
        }
    }
}

/// The topic that a thread address names: its last path segment that is an integer.
pub open spec fn topic_of(url: Seq<char>) -> Option<int> {
    last_number(text::pieces(text::cut_end(url, text::Class::Slash), '/'))
}

/// The address of a topic.
pub fn thread_url(topic_id: i64) -> (r: String)
    ensures
        r@ == thread_address(topic_id as int),
{
    let mut r = FORUM_HOST.to_owned();
    r.append("/t/-/");
    r.append(text::show_i64(topic_id).as_str());
    r
}

/// The topic that a thread address names.
pub fn topic_id_from_url(url: &str) -> (r: Option<i64>)
    ensures
        json::seen_int(r) == topic_of(url@),
{
    let cut = text::trim_end(url, text::Class::Slash);
    let parts = text::split(cut.as_str(), '/');
    let mut n: usize = parts.len();
    assert(text::texts(parts@).take(n as int) == text::texts(parts@));
    while n > 0
        invariant
            n <= parts@.len(),
            topic_of(url@) == last_number(text::texts(parts@)),
            last_number(text::texts(parts@)) == last_number(text::texts(parts@).take(n as int)),
        decreases n,
    {
        let ghost head = text::texts(parts@).take(n as int);
        assert(head.last() == parts@[n - 1]@);
        assert(head.drop_last() == text::texts(parts@).take(n - 1));
        if let Some(id) = text::parse_i64(parts[n - 1].as_str()) {
            return Some(id);
        }
        n = n - 1;
    }
    None
}

proof fn lemma_last_piece(a: Seq<char>, c: char, b: Seq<char>)
    requires
        !b.contains(c),
    ensures
        text::pieces(a + seq![c] + b, c).len() > 0,
        text::pieces(a + seq![c] + b, c).last() == b,
    decreases a.len(),
{
    let s = a + seq![c] + b;
    lemma_first_within(s, c, a.len() as int);
    let k = text::first_at(s, c) as int;
    let rest = s.skip(k + 1);
    if k < a.len() {
        assert(rest == a.skip(k + 1) + seq![c] + b);
        lemma_last_piece(a.skip(k + 1), c, b);
    } else {
        assert(rest == b);
        lemma_absent(b, c);
    }
    assert(text::pieces(s, c) == seq![s.take(k)] + text::pieces(rest, c));
}

proof fn lemma_first_within(s: Seq<char>, c: char, i: int)
    requires
        0 <= i < s.len(),
        s[i] == c,
    ensures
        text::first_at(s, c) <= i,
    decreases i,
{
    if s[0] != c {
        assert(s.skip(1)[i - 1] == c);
        lemma_first_within(s.skip(1), c, i - 1);
    }
}

proof fn lemma_absent(s: Seq<char>, c: char)
    requires
        !s.contains(c),
    ensures
        text::first_at(s, c) == s.len(),
    decreases s.len(),
{
    if s.len() > 0 {
        assert(s[0] != c);
        assert forall|i: int| 0 <= i < s.skip(1).len() implies s.skip(1)[i] != c by {
            assert(s.skip(1)[i] == s[i + 1]);
        }
        lemma_absent(s.skip(1), c);
    }
}

/// The address that is made for a topic leads back to that topic.
pub proof fn law_thread_address_names_its_topic(topic_id: int)
    requires
        i64::MIN <= topic_id <= i64::MAX,
    ensures
        topic_of(thread_address(topic_id)) == Some(topic_id),
{
    let url = thread_address(topic_id);
    let digits = text::int_text(topic_id);
    let n: nat = if topic_id < 0 {
        (-topic_id) as nat
    } else {
        topic_id as nat
    };
    text::lemma_digits_read_back(n);
    text::lemma_int_reads_back(topic_id);
    let tail = text::nat_text(n);
    assert forall|i: int| 0 <= i < digits.len() implies digits[i] != '/' by {
        if topic_id < 0 && i > 0 {
            assert(digits[i] == tail[i - 1]);
        }
    }
    assert(url.last() == tail.last());
    assert(text::cut_end(url, text::Class::Slash) == url);
    reveal_strlit("/t/-/");
    let head = FORUM_HOST@ + seq!['/', 't', '/', '-'];
    assert(url == head + seq!['/'] + digits);
    lemma_last_piece(head, '/', digits);
}

// --- pages of posts --------------------------------------------------------------

/// The arguments that ask for one page of a thread, from the start or behind `cursor`.
pub open spec fn page_request(thread_url: Seq<char>, cursor: Option<Seq<char>>) -> JsonView {
    let args = Map::<Seq<char>, JsonView>::empty().insert(
        "threadUrl"@,
        JsonView::Str(thread_url),
    ).insert("first"@, JsonView::Int(PAGE_SIZE as int));
    match cursor {
        Some(c) => JsonView::Object(args.insert("after"@, JsonView::Str(c))),
        None => JsonView::Object(args),
    }
}

/// What the cache keeps of a post that the server sent. The body goes into `cooked` and,
/// since it is clean text already, into `text`.
pub open spec fn cached_post(p: JsonView) -> JsonView {
    let body = json::text_or_null(p.text_field("content"@));
    JsonView::Object(
        Map::<Seq<char>, JsonView>::empty().insert(
            "id"@,
            json::int_or_null(p.int_field("id"@)),
        ).insert("post_number"@, json::int_or_null(p.int_field("postNumber"@))).insert(
            "username"@,
            json::text_or_null(p.text_field("username"@)),
        ).insert("created_at"@, json::text_or_null(p.text_field("createdAt"@))).insert(
            "cooked"@,
            body,
        ).insert("text"@, body).insert("url"@, json::text_or_null(p.text_field("url"@))).insert(
            "score"@,
            json::value_or_null(p.field("score"@)),
        ).insert("reply_count"@, json::value_or_null(p.field("replyCount"@))),
    )
}

/// The posts of a page, as the cache keeps them.
pub open spec fn page_posts(sc: JsonView) -> Seq<JsonView> {
    match sc.items_field("posts"@) {
        Some(ps) => ps.map_values(|p: JsonView| cached_post(p)),
        None => seq![],
    }
}

/// What the page says of the thread around it; `null` where it says nothing.
pub open spec fn page_info(sc: JsonView) -> JsonView {
    json::value_or_null(sc.field("pageInfo"@))
}

/// One page of a thread.
#[derive(Debug)]
pub struct PostsPage {
    /// The posts, as the cache keeps them.
    pub posts: Vec<Json>,
    /// Where the next page begins.
    pub next_cursor: Option<String>,
    /// Whether more posts follow.
    pub has_next: bool,
    /// The size of the thread.
    pub total_posts: Option<i64>,
}

impl PostsPage {
    /// Whether this is the page that `sc` describes.
    pub open spec fn is_page(&self, sc: JsonView) -> bool {
        &&& json::items_view(self.posts@) == page_posts(sc)
        &&& text::seen_string(self.next_cursor) == page_info(sc).text_field("endCursor"@)
        &&& self.has_next == (page_info(sc).truth_field("hasNextPage"@) == Some(true))
        &&& json::seen_int(self.total_posts) == page_info(sc).int_field("totalPosts"@)
    }
}

/// The arguments that ask for one page of a thread.
pub fn page_request_args(thread_url: &str, cursor: Option<&str>) -> (r: Json)
    ensures
        r@ == page_request(thread_url@, text::seen_text(cursor)),
{
    let mut args = JsonMap::new();
    args.insert("threadUrl", Json::text(thread_url));
    args.insert("first", Json::Int(PAGE_SIZE));
    if let Some(c) = cursor {
        args.insert("after", Json::text(c));
    }
    Json::Object(args)
}

/// What the cache keeps of a post that the server sent.
pub fn mcp_post_to_cache(p: &Json) -> (r: Json)
    ensures
        r@ == cached_post(p@),
{
    let content = p.get_str("content");
    let mut row = JsonMap::new();
    row.insert("id", Json::opt_int(p.get_i64("id")));
    row.insert("post_number", Json::opt_int(p.get_i64("postNumber")));
    row.insert("username", Json::opt_text(p.get_str("username")));
    row.insert("created_at", Json::opt_text(p.get_str("createdAt")));
    row.insert("cooked", Json::opt_text(content));
    row.insert("text", Json::opt_text(content));
    row.insert("url", Json::opt_text(p.get_str("url")));
    row.insert("score", Json::opt_copy(p.get("score")));
    row.insert("reply_count", Json::opt_copy(p.get("replyCount")));
    Json::Object(row)
}

/// Reads one page of a thread.
pub fn parse_posts_page(sc: &Json) -> (r: PostsPage)
    ensures
        r.is_page(sc@),
{
    let mut posts: Vec<Json> = Vec::new();
    if let Some(ps) = sc.get_array("posts") {
        let mut i: usize = 0;
        while i < ps.len()
            invariant
                i <= ps@.len(),
                posts@.len() == i,
                forall|j: int| 0 <= j < i ==> (#[trigger] posts@[j])@ == cached_post(ps@[j]@),
            decreases ps@.len() - i,
        {
            posts.push(mcp_post_to_cache(&ps[i]));
            i += 1;
        }
        assert(json::items_view(posts@) =~= json::items_view(ps@).map_values(
            |p: JsonView| cached_post(p),
        ));
    } else {
        assert(json::items_view(posts@) =~= seq![]);
    }
    let none = Json::Null;
    let info = match sc.get("pageInfo") {
        Some(info) => info,
        None => &none,
    };
    let next_cursor = match info.get_str("endCursor") {
        Some(c) => Some(c.to_owned()),
        None => None,
    };
    let has_next = match info.get_bool("hasNextPage") {
        Some(b) => b,
        None => false,
    };
    PostsPage { posts, next_cursor, has_next, total_posts: info.get_i64("totalPosts") }
}

// --- HTML to text ----------------------------------------------------------------

/// `s` with line breaks in place of the tags that end a block.
pub open spec fn with_breaks(s: Seq<char>) -> Seq<char> {
    let s1 = text::replaced(s, "</p>"@, "\n\n"@);
    let s2 = text::replaced(s1, "<br>"@, "\n"@);
    let s3 = text::replaced(s2, "<br/>"@, "\n"@);
    let s4 = text::replaced(s3, "<br />"@, "\n"@);
    let s5 = text::replaced(s4, "</li>"@, "\n"@);
    text::replaced(s5, "</blockquote>"@, "\n"@)
}

/// `s` without its tags: what stands from a `<` to the next `>`. `in_tag` says whether a
/// tag is open at the beginning.
pub open spec fn without_tags(s: Seq<char>, in_tag: bool) -> Seq<char>
    decreases s.len(),
{
    if s.len() == 0 {
        seq![]
    } else if s[0] == '<' {
        without_tags(s.skip(1), true)
    } else if s[0] == '>' {
        without_tags(s.skip(1), false)
    } else if in_tag {
        without_tags(s.skip(1), true)
    } else {
        seq![s[0]] + without_tags(s.skip(1), false)
    }
}

/// A line with one blank between its words and none at its ends.
pub open spec fn collapsed(line: Seq<char>) -> Seq<char> {
    text::joined(text::text_words(line), " "@)
}

/// The lines, each collapsed, without blank lines at the beginning and with no more than
/// one blank line in a row.
pub open spec fn spaced_lines(lines: Seq<Seq<char>>) -> Seq<Seq<char>>
    decreases lines.len(),
{
    if lines.len() == 0 {
        seq![]
    } else {
        let before = spaced_lines(lines.drop_last());
        let line = collapsed(lines.last());
        if line.len() == 0 && (before.len() == 0 || before.last().len() == 0) {
            before
        } else {
            before.push(line)
        }
    }
}

/// The lines without the blank lines at the end.
pub open spec fn without_blank_end(lines: Seq<Seq<char>>) -> Seq<Seq<char>>
    decreases lines.len(),
{
    if lines.len() > 0 && lines.last().len() == 0 {
        without_blank_end(lines.drop_last())
    } else {
        lines
    }
}

/// `s` with characters in place of the entities that stand for them. The ampersand comes
/// last, so that what comes out of it is not read as an entity again.
pub open spec fn decoded(s: Seq<char>) -> Seq<char> {
    let s1 = text::replaced(s, "&lt;"@, "<"@);
    let s2 = text::replaced(s1, "&gt;"@, ">"@);
    let s3 = text::replaced(s2, "&quot;"@, "\""@);
    let s4 = text::replaced(s3, "&#39;"@, "'"@);
    let s5 = text::replaced(s4, "&hellip;"@, "…"@);
    let s6 = text::replaced(s5, "&nbsp;"@, " "@);
    text::replaced(s6, "&amp;"@, "&"@)
}

/// HTML as text to read in a terminal.
pub open spec fn stripped(s: Seq<char>) -> Seq<char> {
    let lines = text::text_lines(without_tags(with_breaks(s), false));
    decoded(text::joined(without_blank_end(spaced_lines(lines)), "\n"@))
}

/// HTML as text to read in a terminal.
pub fn strip_html(s: &str) -> (r: String)
    ensures
        r@ == stripped(s@),
{
    proof {
        reveal_strlit("</p>");
        reveal_strlit("<br>");
        reveal_strlit("<br/>");
        reveal_strlit("<br />");
        reveal_strlit("</li>");
        reveal_strlit("</blockquote>");
    }
    let s1 = text::replace(s, "</p>", "\n\n");
    let s2 = text::replace(s1.as_str(), "<br>", "\n");
    let s3 = text::replace(s2.as_str(), "<br/>", "\n");
    let s4 = text::replace(s3.as_str(), "<br />", "\n");
    let s5 = text::replace(s4.as_str(), "</li>", "\n");
    let s6 = text::replace(s5.as_str(), "</blockquote>", "\n");
    let plain = drop_tags(s6.as_str());
    let all = text::lines(plain.as_str());
    let mut kept: Vec<String> = Vec::new();
    let mut i: usize = 0;
    while i < all.len()
        invariant
            i <= all@.len(),
            text::texts(kept@) == spaced_lines(text::texts(all@).take(i as int)),
        decreases all@.len() - i,
    {
        let ghost before = kept@;
        let ghost head = text::texts(all@).take(i + 1);
        assert(head.drop_last() == text::texts(all@).take(i as int));
        assert(head.last() == all@[i as int]@);
        let line = text::join(&text::words(all[i].as_str()), " ");
        let blank = line.as_str().is_empty();
        let after_blank = kept.len() == 0 || kept[kept.len() - 1].as_str().is_empty();
        assert(kept@.len() > 0 ==> text::texts(kept@).last() == kept@.last()@);
        if !(blank && after_blank) {
            kept.push(line);
            assert(text::texts(kept@) == text::texts(before).push(line@));
        }
        i += 1;
    }
    assert(text::texts(all@).take(i as int) == text::texts(all@));
    let ghost spaced = text::texts(kept@);
    while kept.len() > 0 && kept[kept.len() - 1].as_str().is_empty()
        invariant
            without_blank_end(text::texts(kept@)) == without_blank_end(spaced),
        decreases kept@.len(),
    {
        let ghost before = kept@;
        let _ = kept.pop();
        assert(text::texts(before).last() == before.last()@);
        assert(text::texts(kept@) == text::texts(before).drop_last());
    }
    assert(kept@.len() > 0 ==> text::texts(kept@).last() == kept@.last()@);
    decode_entities(text::join(&kept, "\n").as_str())
}

/// `s` without its tags.
fn drop_tags(s: &str) -> (r: String)
    ensures
        r@ == without_tags(s@, false),
{
    let v = text::chars_of(s);
    let mut out = String::new();
    let mut in_tag = false;
    let mut i: usize = 0;
    assert(v@.skip(0) == v@);
    assert(out@ + without_tags(v@, false) == without_tags(v@, false));
    while i < v.len()
        invariant
            i <= v@.len(),
            v@ == s@,
            out@ + without_tags(v@.skip(i as int), in_tag) == without_tags(s@, false),
        decreases v@.len() - i,
    {
        let ghost rest = v@.skip(i as int);
        assert(rest.skip(1) == v@.skip(i + 1));
        let c = v[i];
        if c == '<' {
            in_tag = true;
        } else if c == '>' {
            in_tag = false;
        } else if !in_tag {
            let ghost before = out@;
            out.push(c);
            let ghost tail = without_tags(v@.skip(i + 1), false);
            assert(before + (seq![c] + tail) == out@ + tail);
        }
        i += 1;
    }
    assert(v@.skip(i as int) == Seq::<char>::empty());
    assert(out@ + Seq::<char>::empty() == out@);
    out
}

/// `s` with characters in place of the entities that stand for them.
pub fn decode_entities(s: &str) -> (r: String)
    ensures
        r@ == decoded(s@),
{
    proof {
        reveal_strlit("&lt;");
        reveal_strlit("&gt;");
        reveal_strlit("&quot;");
        reveal_strlit("&#39;");
        reveal_strlit("&hellip;");
        reveal_strlit("&nbsp;");
        reveal_strlit("&amp;");
    }
    let s1 = text::replace(s, "&lt;", "<");
    let s2 = text::replace(s1.as_str(), "&gt;", ">");
    let s3 = text::replace(s2.as_str(), "&quot;", "\"");
    let s4 = text::replace(s3.as_str(), "&#39;", "'");
    let s5 = text::replace(s4.as_str(), "&hellip;", "…");
    let s6 = text::replace(s5.as_str(), "&nbsp;", " ");
    text::replace(s6.as_str(), "&amp;", "&")
}

// --- rendering -------------------------------------------------------------------

/// The posts of a thread.
pub open spec fn stream_posts(v: JsonView) -> Option<Seq<JsonView>> {
    match v.field("post_stream"@) {
        Some(stream) => stream.items_field("posts"@),
        None => None,
    }
}

/// The body of a post: its clean text, or its HTML stripped where there is none.
pub open spec fn body_text(p: JsonView) -> Seq<char> {
    match p.text_field("text"@) {
        Some(t) => t,
        None => stripped(text::or_text(p.text_field("cooked"@), ""@)),
    }
}

/// A post with its heading.
pub open spec fn post_text(p: JsonView) -> Seq<char> {
    "#"@ + text::int_text(text::or_zero(p.int_field("post_number"@))) + " @"@ + text::or_text(
        p.text_field("username"@),
        "?"@,
    ) + " ("@ + text::or_text(p.text_field("created_at"@), ""@) + "):\n"@ + body_text(p) + "\n\n"@
}

/// Posts one behind the other.
pub open spec fn posts_text(posts: Seq<JsonView>) -> Seq<char>
    decreases posts.len(),
{
    if posts.len() == 0 {
        seq![]
    } else {
        posts_text(posts.drop_last()) + post_text(posts.last())
    }
}

/// The heading of a thread.
pub open spec fn topic_heading(v: JsonView) -> Seq<char> {
    let title = text::or_text(v.text_field("title"@), "(untitled)"@) + "\n"@;
    match v.int_field("id"@) {
        Some(id) => title + "topic #"@ + text::int_text(id) + "\n"@ + "\n"@,
        None => title + "\n"@,
    }
}

/// A thread: its title and all of its posts in full. A value of another shape is shown
/// as it is.
pub open spec fn topic_text(v: JsonView) -> Seq<char> {
    match stream_posts(v) {
        None => raw_text(v),
        Some(posts) => if posts.len() == 0 {
            topic_heading(v) + "(no posts)\n"@
        } else {
            topic_heading(v) + posts_text(posts)
        },
    }
}

/// The value itself, said to be of a shape that is not known.
pub open spec fn raw_text(v: JsonView) -> Seq<char> {
    "(unrecognized forum response shape — showing raw JSON; pass --json for the same)\n"@
        + json::pretty_of_json(v) + "\n"@
}

/// One thread that was found.
pub open spec fn hit_text(t: JsonView) -> Seq<char> {
    let id = match t.text_field("url"@) {
        Some(url) => topic_of(url),
        None => None,
    };
    let mark = match id {
        Some(id) => "#"@ + text::int_text(id) + "  "@,
        None => "    "@,
    };
    mark + text::or_text(t.text_field("title"@), "(untitled)"@) + "  ("@ + text::int_text(
        text::or_zero(t.int_field("postsCount"@)),
    ) + " posts)\n"@
}

/// The threads that were found, one to a line.
pub open spec fn hits_text(topics: Seq<JsonView>) -> Seq<char>
    decreases topics.len(),
{
    if topics.len() == 0 {
        seq![]
    } else {
        hits_text(topics.drop_last()) + hit_text(topics.last())
    }
}

/// The outcome of a search for threads. A value of another shape is shown as it is.
pub open spec fn search_text(v: JsonView) -> Seq<char> {
    match v.items_field("topics"@) {
        None => raw_text(v),
        Some(topics) => if topics.len() == 0 {
            "No matching topics.\n"@
        } else {
            hits_text(topics) + "\nOpen a topic with: inderes forum topic <id>\n"@
        },
    }
}

/// Renders a thread.
pub fn render_topic(v: &Json) -> (r: String)
    ensures
        r@ == topic_text(v@),
{
    let posts = match v.get("post_stream") {
        Some(stream) => stream.get_array("posts"),
        None => None,
    };
    let posts = match posts {
        Some(posts) => posts,
        None => return fallback_json(v),
    };
    let mut out = match v.get_str("title") {
        Some(t) => t.to_owned(),
        None => "(untitled)".to_owned(),
    };
    out.append("\n");
    if let Some(id) = v.get_i64("id") {
        out.append("topic #");
        out.append(text::show_i64(id).as_str());
        out.append("\n");
    }
    out.append("\n");
    if posts.len() == 0 {
        out.append("(no posts)\n");
        return out;
    }
    let ghost heading = out@;
    let ghost all = json::items_view(posts@);
    assert(heading + posts_text(all.take(0)) == heading);
    let mut i: usize = 0;
    while i < posts.len()
        invariant
            i <= posts@.len(),
            all == json::items_view(posts@),
            out@ == heading + posts_text(all.take(i as int)),
        decreases posts@.len() - i,
    {
        let ghost before = posts_text(all.take(i as int));
        assert(all.take(i + 1).drop_last() == all.take(i as int));
        let p = render_post(&posts[i]);
        out.append(p.as_str());
        assert(heading + before + p@ == heading + (before + p@));
        i += 1;
    }
    assert(all.take(i as int) == all);
    out
}

/// Renders one post of a thread.
fn render_post(p: &Json) -> (r: String)
    ensures
        r@ == post_text(p@),
{
    let n: i64 = match p.get_i64("post_number") {
        Some(n) => n,
        None => 0,
    };
    let mut out = "#".to_owned();
    out.append(text::show_i64(n).as_str());
    out.append(" @");
    match p.get_str("username") {
        Some(who) => out.append(who),
        None => out.append("?"),
    }
    out.append(" (");
    match p.get_str("created_at") {
        Some(when) => out.append(when),
        None => out.append(""),
    }
    out.append("):\n");
    match p.get_str("text") {
        Some(t) => out.append(t),
        None => {
            let body = match p.get_str("cooked") {
                Some(b) => b,
                None => "",
            };
            out.append(strip_html(body).as_str());
        },
    }
    out.append("\n\n");
    out
}

/// Renders the outcome of a search for threads.
pub fn render_forum_search(v: &Json) -> (r: String)
    ensures
        r@ == search_text(v@),
{
    let topics = match v.get_array("topics") {
        Some(topics) => topics,
        None => return fallback_json(v),
    };
    if topics.len() == 0 {
        return "No matching topics.\n".to_owned();
    }
    let ghost all = json::items_view(topics@);
    let mut out = String::new();
    let mut i: usize = 0;
    while i < topics.len()
        invariant
            i <= topics@.len(),
            all == json::items_view(topics@),
            out@ == hits_text(all.take(i as int)),
        decreases topics@.len() - i,
    {
        assert(all.take(i + 1).drop_last() == all.take(i as int));
        out.append(render_hit(&topics[i]).as_str());
        i += 1;
    }
    assert(all.take(i as int) == all);
    out.append("\nOpen a topic with: inderes forum topic <id>\n");
    out
}

/// Renders one thread that was found.
fn render_hit(t: &Json) -> (r: String)
    ensures
        r@ == hit_text(t@),
{
    let id = match t.get_str("url") {
        Some(url) => topic_id_from_url(url),
        None => None,
    };
    let mut out = match id {
        Some(id) => {
            let mut mark = "#".to_owned();
            mark.append(text::show_i64(id).as_str());
            mark.append("  ");
            mark
        },
        None => "    ".to_owned(),
    };
    match t.get_str("title") {
        Some(title) => out.append(title),
        None => out.append("(untitled)"),
    }
    out.append("  (");
    let count: i64 = match t.get_i64("postsCount") {
        Some(n) => n,
        None => 0,
    };
    out.append(text::show_i64(count).as_str());
    out.append(" posts)\n");
    out
}

/// Shows a value of a shape that is not known, so that it does not pass for an empty one.
fn fallback_json(v: &Json) -> (r: String)
    ensures
        r@ == raw_text(v@),
{
    let mut out =
        "(unrecognized forum response shape — showing raw JSON; pass --json for the same)\n".to_owned();
    out.append(v.to_pretty().as_str());
    out.append("\n");
    out
}

// --- laws ------------------------------------------------------------------------

proof fn lemma_replaced_nowhere(s: Seq<char>, pat: Seq<char>, with: Seq<char>)
    requires
        pat.len() > 0,
        forall|i: int| !#[trigger] text::at(s, pat, i),
    ensures
        text::replaced(s, pat, with) == s,
    decreases s.len(),
{
    if s.len() >= pat.len() {
        assert(!text::at(s, pat, 0));
        let rest = s.skip(1);
        assert forall|i: int| !#[trigger] text::at(rest, pat, i) by {
            if text::at(rest, pat, i) {
                assert(s.subrange(i + 1, i + 1 + pat.len()) == rest.subrange(i, i + pat.len()));
                assert(text::at(s, pat, i + 1));
            }
        }
        lemma_replaced_nowhere(rest, pat, with);
        assert(s == seq![s[0]] + rest);
    }
}

proof fn lemma_replaced_without(s: Seq<char>, pat: Seq<char>, with: Seq<char>)
    requires
        pat.len() > 0,
        !s.contains(pat[0]),
    ensures
        text::replaced(s, pat, with) == s,
{
    assert forall|i: int| !#[trigger] text::at(s, pat, i) by {
        if text::at(s, pat, i) {
            assert(s.subrange(i, i + pat.len())[0] == s[i]);
            assert(s.contains(s[i]));
        }
    }
    lemma_replaced_nowhere(s, pat, with);
}

proof fn lemma_no_tags(s: Seq<char>)
    requires
        !s.contains('<'),
        !s.contains('>'),
    ensures
        without_tags(s, false) == s,
    decreases s.len(),
{
    if s.len() > 0 {
        let rest = s.skip(1);
        assert(s.contains(s[0]));
        assert forall|i: int| 0 <= i < rest.len() implies rest[i] != '<' && rest[i] != '>' by {
            assert(rest[i] == s[i + 1]);
            assert(s.contains(s[i + 1]));
        }
        lemma_no_tags(rest);
        assert(s == seq![s[0]] + rest);
    }
}

/// Dropping the tags leaves neither of the characters that open and close them.
pub proof fn law_no_tag_survives(s: Seq<char>, in_tag: bool)
    ensures
        !without_tags(s, in_tag).contains('<'),
        !without_tags(s, in_tag).contains('>'),
    decreases s.len(),
{
    if s.len() > 0 {
        law_no_tag_survives(s.skip(1), true);
        law_no_tag_survives(s.skip(1), false);
        let tail = without_tags(s.skip(1), false);
        let out = without_tags(s, in_tag);
        if s[0] != '<' && s[0] != '>' && !in_tag {
            assert forall|i: int| 0 <= i < out.len() implies out[i] != '<' && out[i] != '>' by {
                if i > 0 {
                    assert(out[i] == tail[i - 1]);
                    assert(tail.contains(tail[i - 1]));
                }
            }
        }
    }
}

/// Whether the lines are such as `strip_html` makes them, and hold nothing that it reads
/// as a tag or an entity.
pub open spec fn plain_lines(lines: Seq<Seq<char>>) -> bool {
    &&& lines.len() > 0 ==> lines[0].len() > 0 && lines.last().len() > 0
    &&& forall|i: int, j: int|
        0 <= i && j == i + 1 && j < lines.len() ==> (#[trigger] lines[i]).len() > 0 || (
        #[trigger] lines[j]).len() > 0
    &&& forall|i: int| 0 <= i < lines.len() ==> plain_line(#[trigger] lines[i])
}

/// Whether an entity that is decoded stands in `s` at `i`.
pub open spec fn entity_at(s: Seq<char>, i: int) -> bool {
    ||| text::at(s, "&lt;"@, i)
    ||| text::at(s, "&gt;"@, i)
    ||| text::at(s, "&quot;"@, i)
    ||| text::at(s, "&#39;"@, i)
    ||| text::at(s, "&hellip;"@, i)
    ||| text::at(s, "&nbsp;"@, i)
    ||| text::at(s, "&amp;"@, i)
}

/// Whether a line is collapsed, and holds nothing that is read as a tag or an entity or
/// ends a line.
pub open spec fn plain_line(line: Seq<char>) -> bool {
    &&& collapsed(line) == line
    &&& !line.contains('<')
    &&& !line.contains('>')
    &&& forall|i: int| !#[trigger] entity_at(line, i)
    &&& !line.contains('\n')
    &&& !line.contains('\r')
}

proof fn lemma_joined_lacks_text(lines: Seq<Seq<char>>, pat: Seq<char>)
    requires
        pat.len() > 0,
        !pat.contains('\n'),
        forall|k: int, i: int| 0 <= k < lines.len() ==> !#[trigger] text::at(lines[k], pat, i),
    ensures
        forall|i: int| !#[trigger] text::at(text::joined(lines, "\n"@), pat, i),
    decreases lines.len(),
{
    reveal_strlit("\n");
    let all = text::joined(lines, "\n"@);
    if lines.len() > 1 {
        let before = lines.drop_last();
        assert forall|k: int, i: int| 0 <= k < before.len() implies !#[trigger] text::at(
            before[k],
            pat,
            i,
        ) by {
            assert(!text::at(lines[k], pat, i));
        }
        lemma_joined_lacks_text(before, pat);
        let head = text::joined(before, "\n"@);
        let n = head.len() as int;
        let last = lines[lines.len() - 1];
        assert forall|i: int| !#[trigger] text::at(all, pat, i) by {
            if text::at(all, pat, i) {
                let found = all.subrange(i, i + pat.len());
                if i + pat.len() <= n {
                    assert(head.subrange(i, i + pat.len()) == found);
                    assert(text::at(head, pat, i));
                } else if i > n {
                    assert(last.subrange(i - n - 1, i - n - 1 + pat.len()) == found);
                    assert(text::at(last, pat, i - n - 1));
                } else {
                    assert(found[n - i] == '\n');
                    assert(pat.contains(pat[n - i]));
                }
            }
        }
    } else if lines.len() == 1 {
        assert forall|i: int| !#[trigger] text::at(all, pat, i) by {
            assert(!text::at(lines[0], pat, i));
        }
    }
}

proof fn lemma_joined_lacks(parts: Seq<Seq<char>>, sep: Seq<char>, c: char)
    requires
        !sep.contains(c),
        forall|i: int| 0 <= i < parts.len() ==> !(#[trigger] parts[i]).contains(c),
    ensures
        !text::joined(parts, sep).contains(c),
    decreases parts.len(),
{
    if parts.len() == 1 {
        assert(!parts[0].contains(c));
    } else if parts.len() > 1 {
        let head = text::joined(parts.drop_last(), sep);
        lemma_joined_lacks(parts.drop_last(), sep, c);
        let all = head + sep + parts.last();
        assert(!parts[parts.len() - 1].contains(c));
        assert forall|i: int| 0 <= i < all.len() implies all[i] != c by {
            if i < head.len() {
                assert(head.contains(head[i]));
            } else if i < head.len() + sep.len() {
                assert(sep.contains(sep[i - head.len()]));
            } else {
                assert(parts.last().contains(parts.last()[i - head.len() - sep.len()]));
            }
        }
    }
}

proof fn lemma_joined_front(parts: Seq<Seq<char>>, sep: Seq<char>)
    requires
        parts.len() > 1,
    ensures
        text::joined(parts, sep) == parts[0] + sep + text::joined(parts.skip(1), sep),
    decreases parts.len(),
{
    let rest = parts.skip(1);
    if parts.len() == 2 {
        assert(parts.drop_last().len() == 1);
        assert(text::joined(parts.drop_last(), sep) == parts[0]);
        assert(text::joined(rest, sep) == parts[1]);
    } else {
        lemma_joined_front(parts.drop_last(), sep);
        assert(parts.drop_last().skip(1) == rest.drop_last());
        let middle = text::joined(rest.drop_last(), sep);
        assert(parts[0] + sep + middle + sep + parts.last() == parts[0] + sep + (middle + sep
            + parts.last()));
    }
}

proof fn lemma_lines_of_joined(lines: Seq<Seq<char>>)
    requires
        lines.len() > 0,
        lines.last().len() > 0,
        forall|i: int|
            0 <= i < lines.len() ==> !(#[trigger] lines[i]).contains('\n')
                && !lines[i].contains('\r'),
    ensures
        text::text_lines(text::joined(lines, "\n"@)) == lines,
    decreases lines.len(),
{
    let s = text::joined(lines, "\n"@);
    let first = lines[0];
    reveal_strlit("\n");
    if lines.len() == 1 {
        lemma_absent(first, '\n');
        assert(text::text_lines(s) == lines);
    } else {
        lemma_joined_front(lines, "\n"@);
        let rest = lines.skip(1);
        let k = first.len() as int;
        assert("\n"@ == seq!['\n']);
        lemma_joined_front_char(first, text::joined(rest, "\n"@));
        assert(s.take(k) == first);
        assert(s.skip(k + 1) == text::joined(rest, "\n"@));
        if first.len() > 0 {
            assert(first.contains(first.last()));
        }
        assert(text::without_return(first) == first);
        lemma_lines_of_joined(rest);
        assert(text::text_lines(s) == seq![first] + rest);
        assert(lines == seq![first] + rest);
    }
}

proof fn lemma_joined_front_char(first: Seq<char>, rest: Seq<char>)
    requires
        !first.contains('\n'),
    ensures
        text::first_at(first + seq!['\n'] + rest, '\n') == first.len(),
    decreases first.len(),
{
    let s = first + seq!['\n'] + rest;
    if first.len() > 0 {
        assert(first.contains(first[0]));
        let f = first.skip(1);
        assert forall|i: int| 0 <= i < f.len() implies f[i] != '\n' by {
            assert(first.contains(first[i + 1]));
        }
        lemma_joined_front_char(f, rest);
        assert(s.skip(1) == f + seq!['\n'] + rest);
    }
}

proof fn lemma_spaced(lines: Seq<Seq<char>>)
    requires
        lines.len() > 0 ==> lines[0].len() > 0,
        forall|i: int, j: int|
            0 <= i && j == i + 1 && j < lines.len() ==> (#[trigger] lines[i]).len() > 0 || (
            #[trigger] lines[j]).len() > 0,
        forall|i: int| 0 <= i < lines.len() ==> plain_line(#[trigger] lines[i]),
    ensures
        spaced_lines(lines) == lines,
    decreases lines.len(),
{
    if lines.len() > 0 {
        let before = lines.drop_last();
        lemma_spaced(before);
        let n = lines.len() as int;
        assert(plain_line(lines[n - 1]));
        if n > 1 {
            assert(before.last() == lines[n - 2]);
            assert(lines[n - 2].len() > 0 || lines[n - 1].len() > 0);
        }
        assert(lines == before.push(lines.last()));
    }
}

/// Plain text stays as it is: stripping changes nothing in lines that hold no tag and no
/// entity and are spaced as the stripped ones are.
pub proof fn law_plain_text_is_kept(lines: Seq<Seq<char>>)
    requires
        plain_lines(lines),
    ensures
        stripped(text::joined(lines, "\n"@)) == text::joined(lines, "\n"@),
{
    let s = text::joined(lines, "\n"@);
    reveal_strlit("\n");
    reveal_strlit("</p>");
    reveal_strlit("<br>");
    reveal_strlit("<br/>");
    reveal_strlit("<br />");
    reveal_strlit("</li>");
    reveal_strlit("</blockquote>");
    lemma_joined_lacks(lines, "\n"@, '<');
    lemma_joined_lacks(lines, "\n"@, '>');
    lemma_replaced_without(s, "</p>"@, "\n\n"@);
    lemma_replaced_without(s, "<br>"@, "\n"@);
    lemma_replaced_without(s, "<br/>"@, "\n"@);
    lemma_replaced_without(s, "<br />"@, "\n"@);
    lemma_replaced_without(s, "</li>"@, "\n"@);
    lemma_replaced_without(s, "</blockquote>"@, "\n"@);
    lemma_no_tags(s);
    if lines.len() > 0 {
        lemma_lines_of_joined(lines);
    } else {
        assert(text::text_lines(s) == lines);
    }
    lemma_spaced(lines);
    lemma_plain_lines_decoded(lines);
}

proof fn lemma_entity_is_nowhere(lines: Seq<Seq<char>>, pat: Seq<char>, with: Seq<char>)
    requires
        pat.len() > 0,
        !pat.contains('\n'),
        forall|line: Seq<char>, i: int| #[trigger] text::at(line, pat, i) ==> entity_at(line, i),
        forall|k: int| 0 <= k < lines.len() ==> plain_line(#[trigger] lines[k]),
    ensures
        text::replaced(text::joined(lines, "\n"@), pat, with) == text::joined(lines, "\n"@),
{
    assert forall|k: int, i: int| 0 <= k < lines.len() implies !#[trigger] text::at(
        lines[k],
        pat,
        i,
    ) by {
        assert(plain_line(lines[k]));
        assert(!entity_at(lines[k], i));
    }
    lemma_joined_lacks_text(lines, pat);
    lemma_replaced_nowhere(text::joined(lines, "\n"@), pat, with);
}

proof fn lemma_plain_lines_decoded(lines: Seq<Seq<char>>)
    requires
        forall|k: int| 0 <= k < lines.len() ==> plain_line(#[trigger] lines[k]),
    ensures
        decoded(text::joined(lines, "\n"@)) == text::joined(lines, "\n"@),
{
    lemma_entities();
    lemma_entity_is_nowhere(lines, "&lt;"@, "<"@);
    lemma_entity_is_nowhere(lines, "&gt;"@, ">"@);
    lemma_entity_is_nowhere(lines, "&quot;"@, "\""@);
    lemma_entity_is_nowhere(lines, "&#39;"@, "'"@);
    lemma_entity_is_nowhere(lines, "&hellip;"@, "…"@);
    lemma_entity_is_nowhere(lines, "&nbsp;"@, " "@);
    lemma_entity_is_nowhere(lines, "&amp;"@, "&"@);
}

/// The place of a character in the order in which its entity is decoded; a character that
/// needs no entity comes before all.
pub open spec fn decoding_rank(c: char) -> int {
    if c == '<' {
        0
    } else if c == '>' {
        1
    } else if c == '"' {
        2
    } else if c == '\'' {
        3
    } else if c == '…' {
        4
    } else if c == '&' {
        6
    } else {
        -1
    }
}

/// The entity of a character that has one.
pub open spec fn entity(c: char) -> Seq<char> {
    if c == '<' {
        "&lt;"@
    } else if c == '>' {
        "&gt;"@
    } else if c == '"' {
        "&quot;"@
    } else if c == '\'' {
        "&#39;"@
    } else if c == '…' {
        "&hellip;"@
    } else {
        "&amp;"@
    }
}

/// `s` with entities in place of its characters that are decoded in turn `from` or later.
pub open spec fn escaped(s: Seq<char>, from: int) -> Seq<char>
    decreases s.len(),
{
    if s.len() == 0 {
        seq![]
    } else if decoding_rank(s[0]) >= from {
        entity(s[0]) + escaped(s.skip(1), from)
    } else {
        seq![s[0]] + escaped(s.skip(1), from)
    }
}

proof fn lemma_entities()
    ensures
        "&lt;"@ == seq!['&', 'l', 't', ';'],
        "&gt;"@ == seq!['&', 'g', 't', ';'],
        "&quot;"@ == seq!['&', 'q', 'u', 'o', 't', ';'],
        "&#39;"@ == seq!['&', '#', '3', '9', ';'],
        "&hellip;"@ == seq!['&', 'h', 'e', 'l', 'l', 'i', 'p', ';'],
        "&nbsp;"@ == seq!['&', 'n', 'b', 's', 'p', ';'],
        "&amp;"@ == seq!['&', 'a', 'm', 'p', ';'],
        "<"@ == seq!['<'],
        ">"@ == seq!['>'],
        "\""@ == seq!['"'],
        "'"@ == seq!['\''],
        "…"@ == seq!['…'],
        "&"@ == seq!['&'],
{
    reveal_strlit("&lt;");
    reveal_strlit("&gt;");
    reveal_strlit("&quot;");
    reveal_strlit("&#39;");
    reveal_strlit("&hellip;");
    reveal_strlit("&nbsp;");
    reveal_strlit("&amp;");
    reveal_strlit("<");
    reveal_strlit(">");
    reveal_strlit("\"");
    reveal_strlit("'");
    reveal_strlit("…");
    reveal_strlit("&");
}

proof fn lemma_replaced_past(x: Seq<char>, y: Seq<char>, pat: Seq<char>, with: Seq<char>)
    requires
        pat.len() > 0,
        !x.contains(pat[0]),
    ensures
        text::replaced(x + y, pat, with) == x + text::replaced(y, pat, with),
    decreases x.len(),
{
    let s = x + y;
    if x.len() == 0 {
        assert(s == y);
        assert(x + text::replaced(y, pat, with) == text::replaced(y, pat, with));
    } else if s.len() >= pat.len() {
        let rest = x.skip(1);
        assert(x.contains(x[0]));
        assert forall|i: int| 0 <= i < rest.len() implies rest[i] != pat[0] by {
            assert(x.contains(x[i + 1]));
        }
        lemma_replaced_past(rest, y, pat, with);
        assert(!text::begins(s, pat)) by {
            assert(s.subrange(0, pat.len() as int)[0] == x[0]);
        }
        assert(s.skip(1) == rest + y);
        assert(x == seq![x[0]] + rest);
        assert(seq![x[0]] + (rest + text::replaced(y, pat, with)) == x + text::replaced(
            y,
            pat,
            with,
        ));
    }
}

proof fn lemma_replaced_past_entity(e: Seq<char>, y: Seq<char>, pat: Seq<char>, with: Seq<char>)
    requires
        pat.len() > 1,
        e.len() > 1,
        e[0] == pat[0],
        e[1] != pat[1],
        !e.skip(1).contains(pat[0]),
    ensures
        text::replaced(e + y, pat, with) == e + text::replaced(y, pat, with),
{
    let s = e + y;
    if s.len() >= pat.len() {
        assert(!text::begins(s, pat)) by {
            assert(s.subrange(0, pat.len() as int)[1] == e[1]);
        }
        lemma_replaced_past(e.skip(1), y, pat, with);
        assert(s.skip(1) == e.skip(1) + y);
        assert(seq![e[0]] + (e.skip(1) + text::replaced(y, pat, with)) == e + text::replaced(
            y,
            pat,
            with,
        ));
    }
}

proof fn lemma_decode_one(s: Seq<char>, rank: int, pat: Seq<char>, with: Seq<char>)
    requires
        pat.len() > 1,
        pat[0] == '&',
        0 <= rank <= 6,
        forall|c: char| #[trigger] decoding_rank(c) == rank ==> entity(c) == pat && with == seq![c],
        forall|c: char| #[trigger] decoding_rank(c) > rank ==> entity(c)[1] != pat[1],
    ensures
        text::replaced(escaped(s, rank), pat, with) == escaped(s, rank + 1),
    decreases s.len(),
{
    lemma_entities();
    if s.len() == 0 {
        assert(escaped(s, rank).len() < pat.len());
    } else {
        let c = s[0];
        let rest = s.skip(1);
        let tail = escaped(rest, rank);
        lemma_decode_one(rest, rank, pat, with);
        if decoding_rank(c) > rank {
            let e = entity(c);
            assert(!e.skip(1).contains('&'));
            lemma_replaced_past_entity(e, tail, pat, with);
        } else if decoding_rank(c) == rank {
            let whole = pat + tail;
            assert(whole.subrange(0, pat.len() as int) == pat);
            assert(text::begins(whole, pat));
            assert(whole.skip(pat.len() as int) == tail);
        } else {
            assert(!seq![c].contains('&')) by {
                assert(c != '&');
            }
            lemma_replaced_past(seq![c], tail, pat, with);
        }
    }
}

proof fn lemma_nothing_escaped(s: Seq<char>)
    ensures
        escaped(s, 7) == s,
    decreases s.len(),
{
    if s.len() > 0 {
        lemma_nothing_escaped(s.skip(1));
        assert(s == seq![s[0]] + s.skip(1));
    }
}

/// What was escaped once is decoded once: text whose special characters were all turned
/// into entities comes back as it was, also where it looked like an entity itself.
pub proof fn law_decoding_undoes_escaping(s: Seq<char>)
    ensures
        decoded(escaped(s, 0)) == s,
{
    lemma_entities();
    lemma_decode_one(s, 0, "&lt;"@, "<"@);
    lemma_decode_one(s, 1, "&gt;"@, ">"@);
    lemma_decode_one(s, 2, "&quot;"@, "\""@);
    lemma_decode_one(s, 3, "&#39;"@, "'"@);
    lemma_decode_one(s, 4, "&hellip;"@, "…"@);
    lemma_decode_one(s, 5, "&nbsp;"@, " "@);
    lemma_decode_one(s, 6, "&amp;"@, "&"@);
    lemma_nothing_escaped(s);
}

/// A post that the server sent with a body is shown with that body as it came, markup
/// characters and all.
pub proof fn law_server_body_is_shown_verbatim(p: JsonView, body: Seq<char>)
    requires
        p.text_field("content"@) == Some(body),
    ensures
        body_text(cached_post(p)) == body,
        post_text(cached_post(p)) == "#"@ + text::int_text(text::or_zero(p.int_field("postNumber"@)))
            + " @"@ + text::or_text(p.text_field("username"@), "?"@) + " ("@ + text::or_text(
            p.text_field("createdAt"@),
            ""@,
        ) + "):\n"@ + body + "\n\n"@,
{
    reveal_strlit("id");
    reveal_strlit("post_number");
    reveal_strlit("username");
    reveal_strlit("created_at");
    reveal_strlit("cooked");
    reveal_strlit("text");
    reveal_strlit("url");
    reveal_strlit("score");
    reveal_strlit("reply_count");
    assert("post_number"@.len() == 11 && "reply_count"@.len() == 11);
    assert("post_number"@[0] == 'p' && "reply_count"@[0] == 'r');
    assert("username"@.len() == 8 && "created_at"@.len() == 10 && "cooked"@.len() == 6);
    assert("text"@.len() == 4 && "url"@.len() == 3 && "score"@.len() == 5);
    let row = cached_post(p);
    assert(row.field("text"@) == Some(JsonView::Str(body)));
    assert(row.field("username"@) == Some(json::text_or_null(p.text_field("username"@))));
    assert(row.field("created_at"@) == Some(json::text_or_null(p.text_field("createdAt"@))));
    assert(row.field("post_number"@) == Some(json::int_or_null(p.int_field("postNumber"@))));
}

proof fn lemma_posts_text_adds(a: Seq<JsonView>, b: Seq<JsonView>)
    ensures
        posts_text(a + b) == posts_text(a) + posts_text(b),
    decreases b.len(),
{
    if b.len() == 0 {
        assert(a + b == a);
        assert(posts_text(a) + Seq::<char>::empty() == posts_text(a));
    } else {
        lemma_posts_text_adds(a, b.drop_last());
        assert((a + b).drop_last() == a + b.drop_last());
        assert(posts_text(a) + (posts_text(b.drop_last()) + post_text(b.last())) == posts_text(a)
            + posts_text(b.drop_last()) + post_text(b.last()));
    }
}

/// Every post of a thread is shown, in its place: behind the heading and the posts before it,
/// and before the posts behind it. The posts of two lists, one behind the other, are shown one
/// behind the other.
pub proof fn law_every_post_is_shown(
    v: JsonView,
    stream: JsonView,
    a: Seq<JsonView>,
    p: JsonView,
    b: Seq<JsonView>,
)
    requires
        v.field("post_stream"@) == Some(stream),
        stream.field("posts"@) == Some(JsonView::Array(a.push(p) + b)),
    ensures
        topic_text(v) == topic_heading(v) + posts_text(a) + post_text(p) + posts_text(b),
        posts_text(a + b) == posts_text(a) + posts_text(b),
        posts_text(seq![p]) == post_text(p),
{
    lemma_posts_text_adds(a, b);
    lemma_posts_text_adds(a.push(p), b);
    assert(a.push(p).drop_last() == a);
    assert(seq![p].drop_last() == Seq::<JsonView>::empty());
    assert(posts_text(seq![p].drop_last()) == Seq::<char>::empty());
    assert(seq![p].last() == p);
    assert(Seq::<char>::empty() + post_text(p) == post_text(p));
    assert(topic_heading(v) + (posts_text(a) + post_text(p) + posts_text(b)) == topic_heading(v)
        + posts_text(a) + post_text(p) + posts_text(b));
}

/// The text that a value holds, or another where it holds none.
pub open spec fn text_or(v: Option<JsonView>, other: Seq<char>) -> Seq<char> {
    match v {
        Some(JsonView::Str(s)) => s,
        _ => other,
    }
}

/// The number that a value holds, or zero where it holds none that fits.
pub open spec fn number_or_zero(v: Option<JsonView>) -> int {
    match v {
        Some(JsonView::Int(n)) => if i64::MIN <= n <= i64::MAX {
            n
        } else {
            0
        },
        _ => 0,
    }
}

/// A post is shown with its number, its author, its date and the whole of its text; where it
/// has no clean text, with its HTML as text. What it lacks is made up for by a zero, a question
/// mark, or nothing.
pub proof fn law_post_is_shown_in_full(p: JsonView, body: Seq<char>)
    requires
        body == (match p.field("text"@) {
            Some(JsonView::Str(t)) => t,
            _ => stripped(text_or(p.field("cooked"@), ""@)),
        }),
    ensures
        post_text(p) == "#"@ + text::int_text(number_or_zero(p.field("post_number"@))) + " @"@
            + text_or(p.field("username"@), "?"@) + " ("@ + text_or(p.field("created_at"@), ""@)
            + "):\n"@ + body + "\n\n"@,
{
}

/// The heading of a thread is its title, and its number where it has one.
pub proof fn law_heading_is_title_and_number(v: JsonView)
    ensures
        v.field("id"@) matches Some(JsonView::Int(id)) ==> i64::MIN <= id <= i64::MAX
            ==> topic_heading(v) == text_or(v.field("title"@), "(untitled)"@) + "\n"@ + "topic #"@
            + text::int_text(id) + "\n"@ + "\n"@,
        v.field("id"@) is None ==> topic_heading(v) == text_or(v.field("title"@), "(untitled)"@)
            + "\n"@ + "\n"@,
{
}

/// A thread without posts says so below its heading, and a search without hits says so.
pub proof fn law_nothing_to_show_is_said(v: JsonView, stream: JsonView)
    requires
        v.field("post_stream"@) == Some(stream),
        stream.field("posts"@) == Some(JsonView::Array(seq![])),
    ensures
        topic_text(v) == topic_heading(v) + "(no posts)\n"@,
        v.field("topics"@) == Some(JsonView::Array(seq![])) ==> search_text(v)
            == "No matching topics.\n"@,
{
}

proof fn lemma_hits_text_adds(a: Seq<JsonView>, b: Seq<JsonView>)
    ensures
        hits_text(a + b) == hits_text(a) + hits_text(b),
    decreases b.len(),
{
    if b.len() == 0 {
        assert(a + b == a);
        assert(hits_text(a) + Seq::<char>::empty() == hits_text(a));
    } else {
        lemma_hits_text_adds(a, b.drop_last());
        assert((a + b).drop_last() == a + b.drop_last());
        assert(hits_text(a) + (hits_text(b.drop_last()) + hit_text(b.last())) == hits_text(a)
            + hits_text(b.drop_last()) + hit_text(b.last()));
    }
}

/// Every thread that was found is shown, in its place among the others.
pub proof fn law_every_hit_is_shown(v: JsonView, a: Seq<JsonView>, t: JsonView, b: Seq<JsonView>)
    requires
        v.field("topics"@) == Some(JsonView::Array(a.push(t) + b)),
    ensures
        search_text(v) == hits_text(a) + hit_text(t) + hits_text(b)
            + "\nOpen a topic with: inderes forum topic <id>\n"@,
        hits_text(a + b) == hits_text(a) + hits_text(b),
        hits_text(seq![t]) == hit_text(t),
{
    lemma_hits_text_adds(a, b);
    lemma_hits_text_adds(a.push(t), b);
    assert(a.push(t).drop_last() == a);
    assert(seq![t].drop_last() == Seq::<JsonView>::empty());
    assert(hits_text(seq![t].drop_last()) == Seq::<char>::empty());
    assert(seq![t].last() == t);
    assert(Seq::<char>::empty() + hit_text(t) == hit_text(t));
}

/// A thread that was found is shown with its title, its size, and the number that its address
/// ends in, so that it can be opened by that number.
pub proof fn law_hit_shows_the_number_of_its_thread(
    t: JsonView,
    head: Seq<char>,
    id: int,
)
    requires
        i64::MIN <= id <= i64::MAX,
    ensures
        t.field("url"@) == Some(JsonView::Str(head + seq!['/'] + text::int_text(id))) ==> hit_text(t)
            == "#"@ + text::int_text(id) + "  "@ + text_or(t.field("title"@), "(untitled)"@) + "  ("@
            + text::int_text(number_or_zero(t.field("postsCount"@))) + " posts)\n"@,
        t.field("url"@) is None ==> hit_text(t) == "    "@ + text_or(
            t.field("title"@),
            "(untitled)"@,
        ) + "  ("@ + text::int_text(number_or_zero(t.field("postsCount"@))) + " posts)\n"@,
{
    law_address_names_its_last_number(head, id);
}

proof fn lemma_int_text_plain(n: int)
    requires
        i64::MIN <= n <= i64::MAX,
    ensures
        text::int_text(n).len() > 0,
        !text::int_text(n).contains('/'),
        text::int_text(n).last() != '/',
        text::parsed_int(text::int_text(n)) == Some(n),
{
    let digits = text::int_text(n);
    let m: nat = if n < 0 {
        (-n) as nat
    } else {
        n as nat
    };
    text::lemma_digits_read_back(m);
    text::lemma_int_reads_back(n);
    let tail = text::nat_text(m);
    assert forall|i: int| 0 <= i < digits.len() implies digits[i] != '/' by {
        if n < 0 && i > 0 {
            assert(digits[i] == tail[i - 1]);
        }
    }
    assert(digits.last() == tail.last());
}

/// An address that ends in a number names the topic with that number, whatever stands before
/// it.
pub proof fn law_address_names_its_last_number(head: Seq<char>, id: int)
    requires
        i64::MIN <= id <= i64::MAX,
    ensures
        topic_of(head + seq!['/'] + text::int_text(id)) == Some(id),
{
    let digits = text::int_text(id);
    let url = head + seq!['/'] + digits;
    lemma_int_text_plain(id);
    assert(url.last() == digits.last());
    assert(text::cut_end(url, text::Class::Slash) == url);
    lemma_last_piece(head, '/', digits);
}

proof fn lemma_pieces_grow(head: Seq<char>, c: char, word: Seq<char>)
    requires
        !word.contains(c),
    ensures
        text::pieces(head + seq![c] + word, c) == text::pieces(head, c).push(word),
    decreases head.len(),
{
    let s = head + seq![c] + word;
    let k = text::first_at(head, c) as int;
    lemma_first_in_front(head, c, seq![c] + word);
    assert(head + (seq![c] + word) == s);
    if k < head.len() {
        let rest = head.skip(k + 1);
        lemma_pieces_grow(rest, c, word);
        assert(s.skip(k + 1) == rest + seq![c] + word);
        assert(s.take(k) == head.take(k));
        assert(seq![head.take(k)] + text::pieces(rest, c).push(word) == (seq![head.take(k)]
            + text::pieces(rest, c)).push(word));
    } else {
        assert(s.take(k) == head);
        assert(s.skip(k + 1) == word);
        lemma_absent(word, c);
        assert(text::pieces(word, c) == seq![word]);
        assert(seq![head] + seq![word] == seq![head].push(word));
    }
}

proof fn lemma_first_in_front(a: Seq<char>, c: char, b: Seq<char>)
    requires
        b.len() > 0,
        b[0] == c,
    ensures
        text::first_at(a, c) <= a.len(),
        text::first_at(a + b, c) == text::first_at(a, c),
    decreases a.len(),
{
    if a.len() == 0 {
        assert(a + b == b);
    } else if a[0] != c {
        lemma_first_in_front(a.skip(1), c, b);
        assert((a + b).skip(1) == a.skip(1) + b);
    }
}

/// A last segment that is no number is passed over, and slashes at the end make no difference.
pub proof fn law_words_in_an_address_are_passed_over(head: Seq<char>, word: Seq<char>)
    requires
        !word.contains('/'),
        word.len() > 0,
        text::parsed_int(word) is None,
    ensures
        topic_of(head + seq!['/'] + word) == last_number(text::pieces(head, '/')),
        topic_of(head + seq!['/']) == topic_of(head),
{
    let s = head + seq!['/'] + word;
    assert(s.last() == word.last());
    assert(word.contains(word.last()));
    assert(text::cut_end(s, text::Class::Slash) == s);
    lemma_pieces_grow(head, '/', word);
    assert(text::pieces(head, '/').push(word).drop_last() == text::pieces(head, '/'));
    assert((head + seq!['/']).drop_last() == head);
}

/// What is asked for is one page of the thread, as large as the server gives, behind the cursor
/// where there is one.
pub proof fn law_page_is_asked_for_behind_the_cursor(url: Seq<char>, cursor: Option<Seq<char>>)
    ensures
        page_request(url, cursor).field("threadUrl"@) == Some(JsonView::Str(url)),
        page_request(url, cursor).field("first"@) == Some(JsonView::Int(50)),
        page_request(url, cursor).field("after"@) == (match cursor {
            Some(c) => Some(JsonView::Str(c)),
            None => None,
        }),
{
    reveal_strlit("threadUrl");
    reveal_strlit("first");
    reveal_strlit("after");
    assert("threadUrl"@.len() == 9 && "first"@.len() == 5 && "after"@.len() == 5);
    assert("first"@[0] == 'f' && "after"@[0] == 'a');
}

proof fn lemma_post_words()
    ensures
        "id"@.len() == 2,
        "post_number"@.len() == 11 && "post_number"@[0] == 'p',
        "username"@.len() == 8,
        "created_at"@.len() == 10,
        "cooked"@.len() == 6,
        "text"@.len() == 4,
        "url"@.len() == 3,
        "score"@.len() == 5,
        "reply_count"@.len() == 11 && "reply_count"@[0] == 'r',
{
    reveal_strlit("id");
    reveal_strlit("post_number");
    reveal_strlit("username");
    reveal_strlit("created_at");
    reveal_strlit("cooked");
    reveal_strlit("text");
    reveal_strlit("url");
    reveal_strlit("score");
    reveal_strlit("reply_count");
}

/// Everything that the server says of a post is kept under the name by which the cache knows
/// it: a number as a number, a text as a text, and whatever else as it came.
pub proof fn law_cached_post_keeps_what_came(p: JsonView)
    ensures
        ({
            let row = cached_post(p);
            &&& p.field("id"@) matches Some(JsonView::Int(n)) ==> i64::MIN <= n <= i64::MAX
                ==> row.field("id"@) == p.field("id"@)
            &&& p.field("postNumber"@) matches Some(JsonView::Int(n)) ==> i64::MIN <= n <= i64::MAX
                ==> row.field("post_number"@) == p.field("postNumber"@)
            &&& p.field("username"@) matches Some(JsonView::Str(_)) ==> row.field("username"@)
                == p.field("username"@)
            &&& p.field("createdAt"@) matches Some(JsonView::Str(_)) ==> row.field("created_at"@)
                == p.field("createdAt"@)
            &&& p.field("content"@) matches Some(JsonView::Str(_)) ==> row.field("cooked"@)
                == p.field("content"@) && row.field("text"@) == p.field("content"@)
            &&& p.field("url"@) matches Some(JsonView::Str(_)) ==> row.field("url"@) == p.field(
                "url"@,
            )
            &&& p.field("score"@) is Some ==> row.field("score"@) == p.field("score"@)
            &&& p.field("replyCount"@) is Some ==> row.field("reply_count"@) == p.field(
                "replyCount"@,
            )
            &&& p.field("id"@) is None ==> row.field("id"@) == Some(JsonView::Null)
            &&& p.field("postNumber"@) is None ==> row.field("post_number"@) == Some(JsonView::Null)
            &&& p.field("username"@) is None ==> row.field("username"@) == Some(JsonView::Null)
            &&& p.field("createdAt"@) is None ==> row.field("created_at"@) == Some(JsonView::Null)
            &&& p.field("content"@) is None ==> row.field("text"@) == Some(JsonView::Null)
            &&& p.field("content"@) is None ==> row.field("cooked"@) == Some(JsonView::Null)
            &&& p.field("url"@) is None ==> row.field("url"@) == Some(JsonView::Null)
            &&& p.field("score"@) is None ==> row.field("score"@) == Some(JsonView::Null)
            &&& p.field("replyCount"@) is None ==> row.field("reply_count"@) == Some(JsonView::Null)
        }),
{
    lemma_post_words();
}

/// A page has every post that the server sent, in order, and says whether and where the next
/// one begins.
pub proof fn law_page_is_read_whole(page: PostsPage, sc: JsonView, posts: Seq<JsonView>, info: JsonView)
    requires
        page.is_page(sc),
        sc.field("posts"@) == Some(JsonView::Array(posts)),
        sc.field("pageInfo"@) == Some(info),
    ensures
        page.posts@.len() == posts.len(),
        forall|i: int|
            0 <= i < posts.len() ==> (#[trigger] page.posts@[i])@ == cached_post(posts[i]),
        page.has_next <==> info.field("hasNextPage"@) == Some(JsonView::Bool(true)),
        info.field("endCursor"@) matches Some(JsonView::Str(c)) ==> text::seen_string(
            page.next_cursor,
        ) == Some(c),
        !(info.field("endCursor"@) matches Some(JsonView::Str(_))) ==> page.next_cursor is None,
        info.field("totalPosts"@) matches Some(JsonView::Int(n)) ==> i64::MIN <= n <= i64::MAX
            ==> json::seen_int(page.total_posts) == Some(n),
        info.field("totalPosts"@) is None ==> page.total_posts is None,
{
    assert(json::items_view(page.posts@).len() == page.posts@.len());
    assert forall|i: int| 0 <= i < posts.len() implies (#[trigger] page.posts@[i])@ == cached_post(
        posts[i],
    ) by {
        assert(json::items_view(page.posts@)[i] == page.posts@[i]@);
    }
}

/// A value of another shape is shown as it is, so that nothing of it is lost.
pub proof fn law_unknown_shape_is_shown_as_it_is(v: JsonView)
    ensures
        stream_posts(v) is None ==> topic_text(v) == raw_text(v),
        v.items_field("topics"@) is None ==> search_text(v) == raw_text(v),
        text::holds(raw_text(v), json::pretty_of_json(v)),
{
    text::lemma_holds(
        "(unrecognized forum response shape — showing raw JSON; pass --json for the same)\n"@,
        json::pretty_of_json(v),
        "\n"@,
    );
}

/// Whether a text is a tag: it begins with `<`, ends with `>`, and holds neither in between.
pub open spec fn is_tag(tag: Seq<char>) -> bool {
    &&& tag.len() >= 2
    &&& tag[0] == '<'
    &&& tag.last() == '>'
    &&& forall|i: int| 0 < i < tag.len() - 1 ==> #[trigger] tag[i] != '<' && tag[i] != '>'
}

/// Whether a tag ends a line.
pub open spec fn ends_a_line(tag: Seq<char>) -> bool {
    ||| tag == "<br>"@
    ||| tag == "<br/>"@
    ||| tag == "<br />"@
    ||| tag == "</li>"@
    ||| tag == "</blockquote>"@
}

proof fn lemma_break_tags()
    ensures
        is_tag("</p>"@),
        is_tag("<br>"@),
        is_tag("<br/>"@),
        is_tag("<br />"@),
        is_tag("</li>"@),
        is_tag("</blockquote>"@),
        !("\n"@).contains('<'),
        !("\n\n"@).contains('<'),
        "</p>"@.len() == 4 && "</p>"@[1] == '/',
        "<br>"@.len() == 4 && "<br>"@[1] == 'b',
        "<br/>"@.len() == 5 && "<br/>"@[1] == 'b',
        "<br />"@.len() == 6,
        "</li>"@.len() == 5 && "</li>"@[1] == '/',
        "</blockquote>"@.len() == 13,
{
    reveal_strlit("</p>");
    reveal_strlit("<br>");
    reveal_strlit("<br/>");
    reveal_strlit("<br />");
    reveal_strlit("</li>");
    reveal_strlit("</blockquote>");
    reveal_strlit("\n");
    reveal_strlit("\n\n");
}

proof fn lemma_tag_passed(
    x: Seq<char>,
    tag: Seq<char>,
    y: Seq<char>,
    pat: Seq<char>,
    with: Seq<char>,
)
    requires
        !x.contains('<'),
        is_tag(tag),
        is_tag(pat),
    ensures
        tag != pat ==> text::replaced(x + tag + y, pat, with) == x + tag + text::replaced(
            y,
            pat,
            with,
        ),
        tag == pat ==> text::replaced(x + tag + y, pat, with) == x + with + text::replaced(
            y,
            pat,
            with,
        ),
{
    let s = tag + y;
    assert(x + s == x + tag + y);
    lemma_replaced_past(x, s, pat, with);
    let more = text::replaced(y, pat, with);
    if tag == pat {
        assert(s.subrange(0, pat.len() as int) == pat);
        assert(s.skip(pat.len() as int) == y);
        assert(x + (with + more) == x + with + more);
    } else {
        if text::begins(s, pat) {
            let head = s.subrange(0, pat.len() as int);
            if pat.len() <= tag.len() {
                assert(head.last() == tag[pat.len() - 1]);
                assert(pat.len() == tag.len());
                assert(head == tag);
            } else {
                assert(head[tag.len() - 1] == tag.last());
                assert(pat[tag.len() - 1] == '>');
            }
        }
        let inner = tag.skip(1);
        assert forall|i: int| 0 <= i < inner.len() implies inner[i] != '<' by {
            assert(inner[i] == tag[i + 1]);
        }
        if s.len() >= pat.len() {
            assert(s.skip(1) == inner + y);
            lemma_replaced_past(inner, y, pat, with);
            assert(seq![s[0]] + (inner + more) == tag + more);
        } else {
            assert(more == y);
        }
        assert(x + (tag + more) == x + tag + more);
    }
}

/// Each tag that ends a line becomes a line end, the end of a paragraph an empty line, and any
/// other tag is left for later; what stands before a tag is kept, and what follows it is gone
/// through likewise.
pub proof fn law_tags_end_lines(x: Seq<char>, tag: Seq<char>, y: Seq<char>)
    requires
        !x.contains('<'),
        is_tag(tag),
    ensures
        ends_a_line(tag) ==> with_breaks(x + tag + y) == x + "\n"@ + with_breaks(y),
        tag == "</p>"@ ==> with_breaks(x + tag + y) == x + "\n\n"@ + with_breaks(y),
        !ends_a_line(tag) && tag != "</p>"@ ==> with_breaks(x + tag + y) == x + tag + with_breaks(y),
        with_breaks(x) == x,
{
    lemma_break_tags();
    let y1 = text::replaced(y, "</p>"@, "\n\n"@);
    let y2 = text::replaced(y1, "<br>"@, "\n"@);
    let y3 = text::replaced(y2, "<br/>"@, "\n"@);
    let y4 = text::replaced(y3, "<br />"@, "\n"@);
    let y5 = text::replaced(y4, "</li>"@, "\n"@);
    let y6 = text::replaced(y5, "</blockquote>"@, "\n"@);
    lemma_tag_passed(x, tag, y, "</p>"@, "\n\n"@);
    lemma_tag_passed(x, tag, y1, "<br>"@, "\n"@);
    lemma_tag_passed(x, tag, y2, "<br/>"@, "\n"@);
    lemma_tag_passed(x, tag, y3, "<br />"@, "\n"@);
    lemma_tag_passed(x, tag, y4, "</li>"@, "\n"@);
    lemma_tag_passed(x, tag, y5, "</blockquote>"@, "\n"@);
    lemma_no_start_of_tag(x, "\n"@);
    lemma_no_start_of_tag(x, "\n\n"@);
    lemma_replaced_past(x + "\n\n"@, y1, "<br>"@, "\n"@);
    lemma_replaced_past(x + "\n\n"@, y2, "<br/>"@, "\n"@);
    lemma_replaced_past(x + "\n\n"@, y3, "<br />"@, "\n"@);
    lemma_replaced_past(x + "\n\n"@, y4, "</li>"@, "\n"@);
    lemma_replaced_past(x + "\n\n"@, y5, "</blockquote>"@, "\n"@);
    lemma_replaced_past(x + "\n"@, y2, "<br/>"@, "\n"@);
    lemma_replaced_past(x + "\n"@, y3, "<br />"@, "\n"@);
    lemma_replaced_past(x + "\n"@, y4, "</li>"@, "\n"@);
    lemma_replaced_past(x + "\n"@, y5, "</blockquote>"@, "\n"@);
    assert(with_breaks(y) == y6);
    lemma_no_breaks(x);
}

proof fn lemma_no_start_of_tag(x: Seq<char>, end: Seq<char>)
    requires
        !x.contains('<'),
        !end.contains('<'),
    ensures
        !(x + end).contains('<'),
{
    let s = x + end;
    assert forall|i: int| 0 <= i < s.len() implies s[i] != '<' by {
        if i < x.len() {
            assert(x.contains(x[i]));
        } else {
            assert(end.contains(end[i - x.len()]));
        }
    }
}

proof fn lemma_no_breaks(x: Seq<char>)
    requires
        !x.contains('<'),
    ensures
        with_breaks(x) == x,
{
    lemma_break_tags();
    lemma_replaced_without(x, "</p>"@, "\n\n"@);
    lemma_replaced_without(x, "<br>"@, "\n"@);
    lemma_replaced_without(x, "<br/>"@, "\n"@);
    lemma_replaced_without(x, "<br />"@, "\n"@);
    lemma_replaced_without(x, "</li>"@, "\n"@);
    lemma_replaced_without(x, "</blockquote>"@, "\n"@);
}

proof fn lemma_tag_dropped(x: Seq<char>, y: Seq<char>)
    requires
        forall|i: int| 0 <= i < x.len() ==> #[trigger] x[i] != '<' && x[i] != '>',
    ensures
        without_tags(x + seq!['>'] + y, true) == without_tags(y, false),
        without_tags(x + y, false) == x + without_tags(y, false),
    decreases x.len(),
{
    let s = x + seq!['>'] + y;
    if x.len() == 0 {
        assert(s.skip(1) == y);
        assert(x + y == y);
        assert(x + without_tags(y, false) == without_tags(y, false));
    } else {
        let rest = x.skip(1);
        lemma_tag_dropped(rest, y);
        assert(s.skip(1) == rest + seq!['>'] + y);
        assert((x + y).skip(1) == rest + y);
        assert(s[0] == x[0] && (x + y)[0] == x[0]);
        assert(seq![x[0]] + (rest + without_tags(y, false)) == x + without_tags(y, false));
    }
}

/// A tag leaves nothing behind, and takes nothing with it: what stands before it is kept, and
/// what follows it is gone through likewise.
pub proof fn law_tag_takes_nothing_with_it(x: Seq<char>, tag: Seq<char>, y: Seq<char>)
    requires
        forall|i: int| 0 <= i < x.len() ==> #[trigger] x[i] != '<' && x[i] != '>',
        is_tag(tag),
    ensures
        without_tags(x + tag + y, false) == x + without_tags(y, false),
        without_tags(x, false) == x,
{
    let inner = tag.subrange(1, tag.len() - 1);
    let s = tag + y;
    assert(x + s == x + tag + y);
    lemma_tag_dropped(x, s);
    assert(s.skip(1) == inner + seq!['>'] + y);
    assert forall|i: int| 0 <= i < inner.len() implies #[trigger] inner[i] != '<' && inner[i]
        != '>' by {
        assert(inner[i] == tag[i + 1]);
    }
    lemma_tag_dropped(inner, y);
    lemma_tag_dropped(x, seq![]);
    assert(x + Seq::<char>::empty() == x);
    assert(without_tags(seq![], false) == Seq::<char>::empty());
}

/// A text with one tag in it reads as the text without the tag; with a line end in the tag's
/// place where the tag ends a line, and with an empty line in its place where it ends a
/// paragraph.
pub proof fn law_tag_in_a_text(x: Seq<char>, tag: Seq<char>, y: Seq<char>)
    requires
        forall|i: int| 0 <= i < x.len() ==> #[trigger] x[i] != '<' && x[i] != '>',
        forall|i: int| 0 <= i < y.len() ==> #[trigger] y[i] != '<' && y[i] != '>',
        is_tag(tag),
    ensures
        ends_a_line(tag) ==> stripped(x + tag + y) == stripped(x + "\n"@ + y),
        tag == "</p>"@ ==> stripped(x + tag + y) == stripped(x + "\n\n"@ + y),
        !ends_a_line(tag) && tag != "</p>"@ ==> stripped(x + tag + y) == stripped(x + y),
{
    lemma_break_tags();
    law_tags_end_lines(x, tag, y);
    lemma_no_breaks(y);
    lemma_no_start_of_tag(x, "\n"@);
    lemma_no_start_of_tag(x + "\n"@, y);
    lemma_no_breaks(x + "\n"@ + y);
    lemma_no_start_of_tag(x, "\n\n"@);
    lemma_no_start_of_tag(x + "\n\n"@, y);
    lemma_no_breaks(x + "\n\n"@ + y);
    lemma_no_start_of_tag(x, y);
    lemma_no_breaks(x + y);
    law_tag_takes_nothing_with_it(x, tag, y);
    law_tag_takes_nothing_with_it(y, tag, y);
    let s = x + y;
    assert forall|i: int| 0 <= i < s.len() implies #[trigger] s[i] != '<' && s[i] != '>' by {
        if i < x.len() {
            assert(s[i] == x[i]);
        } else {
            assert(s[i] == y[i - x.len()]);
        }
    }
    law_tag_takes_nothing_with_it(s, tag, y);
}

proof fn lemma_words_are_words(s: Seq<char>)
    ensures
        forall|i: int|
            0 <= i < text::text_words(s).len() ==> (#[trigger] text::text_words(s)[i]).len() > 0
                && lacks_white(text::text_words(s)[i]),
    decreases s.len(),
{
    let all = text::text_words(s);
    if s.len() > 0 && text::is_white(s[0]) {
        lemma_words_are_words(s.skip(1));
        assert(all == text::text_words(s.skip(1)));
    } else if s.len() > 0 {
        text::lemma_word_fits(s);
        let k = text::word_len(s) as int;
        lemma_word_lacks_white(s);
        lemma_words_are_words(s.skip(k));
        assert(all == seq![s.take(k)] + text::text_words(s.skip(k)));
        assert(k > 0);
        let rest = text::text_words(s.skip(k));
        assert forall|i: int| 0 <= i < all.len() implies (#[trigger] all[i]).len() > 0
            && lacks_white(all[i]) by {
            if i > 0 {
                assert(all[i] == rest[i - 1]);
            } else {
                assert(all[0] == s.take(k));
            }
        }
    }
}

/// Whether a text holds no white space.
pub open spec fn lacks_white(s: Seq<char>) -> bool {
    forall|i: int| 0 <= i < s.len() ==> !text::is_white(#[trigger] s[i])
}

proof fn lemma_word_lacks_white(s: Seq<char>)
    ensures
        text::word_len(s) <= s.len(),
        lacks_white(s.take(text::word_len(s) as int)),
    decreases s.len(),
{
    if s.len() > 0 && !text::is_white(s[0]) {
        lemma_word_lacks_white(s.skip(1));
        let k = text::word_len(s) as int;
        let word = s.take(k);
        let tail = s.skip(1).take(k - 1);
        assert forall|i: int| 0 <= i < word.len() implies !text::is_white(#[trigger] word[i]) by {
            if i > 0 {
                assert(word[i] == tail[i - 1]);
            }
        }
    }
}

proof fn lemma_words_of_joined(words: Seq<Seq<char>>)
    requires
        forall|i: int|
            0 <= i < words.len() ==> (#[trigger] words[i]).len() > 0 && lacks_white(words[i]),
    ensures
        text::text_words(text::joined(words, " "@)) == words,
    decreases words.len(),
{
    reveal_strlit(" ");
    assert(" "@ == seq![' ']);
    if words.len() == 1 {
        text::law_white_space_parts_words(words[0], ' ', seq![]);
        assert(words == seq![words[0]]);
    } else if words.len() > 1 {
        let before = words.drop_last();
        assert forall|i: int| 0 <= i < before.len() implies (#[trigger] before[i]).len() > 0
            && lacks_white(before[i]) by {
            assert(before[i] == words[i]);
        }
        lemma_words_of_joined(before);
        let last = words[words.len() - 1];
        text::law_white_space_parts_words(text::joined(before, " "@), ' ', last);
        text::law_white_space_parts_words(last, ' ', seq![]);
        assert(before + seq![last] == words);
    }
}

/// Blanks are collapsed, and no word is lost, added or moved by that. A line that was collapsed
/// stays as it is.
pub proof fn law_collapsing_keeps_the_words(line: Seq<char>)
    ensures
        text::text_words(collapsed(line)) == text::text_words(line),
        collapsed(collapsed(line)) == collapsed(line),
{
    lemma_words_are_words(line);
    lemma_words_of_joined(text::text_words(line));
}

/// The lines that are not empty.
pub open spec fn written(lines: Seq<Seq<char>>) -> Seq<Seq<char>>
    decreases lines.len(),
{
    if lines.len() == 0 {
        seq![]
    } else if lines.last().len() == 0 {
        written(lines.drop_last())
    } else {
        written(lines.drop_last()).push(lines.last())
    }
}

/// The lines, collapsed.
pub open spec fn collapsed_lines(lines: Seq<Seq<char>>) -> Seq<Seq<char>> {
    lines.map_values(|line: Seq<char>| collapsed(line))
}

/// Empty lines are dropped at the start and at the end and where another stands before them; no
/// line with words is lost, added or moved by that.
pub proof fn law_no_line_is_lost(lines: Seq<Seq<char>>)
    ensures
        written(without_blank_end(spaced_lines(lines))) == written(collapsed_lines(lines)),
        written(spaced_lines(lines)) == written(collapsed_lines(lines)),
        ({
            let spaced = spaced_lines(lines);
            &&& spaced.len() > 0 ==> spaced[0].len() > 0
            &&& forall|i: int|
                0 < i < spaced.len() ==> (#[trigger] spaced[i]).len() > 0 || spaced[i - 1].len() > 0
        }),
        ({
            let end = without_blank_end(spaced_lines(lines));
            end.len() > 0 ==> end.last().len() > 0
        }),
    decreases lines.len(),
{
    if lines.len() > 0 {
        let before = lines.drop_last();
        law_no_line_is_lost(before);
        assert(collapsed_lines(lines).drop_last() == collapsed_lines(before));
        assert(collapsed_lines(lines).last() == collapsed(lines.last()));
        let spaced = spaced_lines(before);
        let line = collapsed(lines.last());
        assert(spaced.push(line).drop_last() == spaced);
    }
    lemma_blank_end(spaced_lines(lines));
}

proof fn lemma_blank_end(lines: Seq<Seq<char>>)
    ensures
        written(without_blank_end(lines)) == written(lines),
        without_blank_end(lines).len() > 0 ==> without_blank_end(lines).last().len() > 0,
    decreases lines.len(),
{
    if lines.len() > 0 && lines.last().len() == 0 {
        lemma_blank_end(lines.drop_last());
    }
}

/// A hard blank is read as a blank.
pub proof fn law_hard_blank_is_a_blank(a: Seq<char>, b: Seq<char>)
    requires
        !a.contains('&'),
        !b.contains('&'),
    ensures
        decoded(a + "&nbsp;"@ + b) == a + " "@ + b,
{
    lemma_entities();
    reveal_strlit(" ");
    reveal_strlit("&nbsp;");
    reveal_strlit("&lt;");
    reveal_strlit("&gt;");
    reveal_strlit("&quot;");
    reveal_strlit("&#39;");
    reveal_strlit("&hellip;");
    reveal_strlit("&amp;");
    let e = "&nbsp;"@;
    let s = a + e + b;
    assert(a + (e + b) == s);
    lemma_entity_passed(a, e, b, "&lt;"@, "<"@);
    lemma_entity_passed(a, e, b, "&gt;"@, ">"@);
    lemma_entity_passed(a, e, b, "&quot;"@, "\""@);
    lemma_entity_passed(a, e, b, "&#39;"@, "'"@);
    lemma_entity_passed(a, e, b, "&hellip;"@, "…"@);
    lemma_replaced_past(a, e + b, e, " "@);
    assert((e + b).subrange(0, e.len() as int) == e);
    assert((e + b).skip(e.len() as int) == b);
    lemma_replaced_without(b, e, " "@);
    assert(a + (" "@ + b) == a + " "@ + b);
    let t = a + " "@ + b;
    assert forall|i: int| 0 <= i < t.len() implies t[i] != '&' by {
        if i < a.len() {
            assert(a.contains(a[i]));
        } else if i > a.len() {
            assert(b.contains(b[i - a.len() - 1]));
        }
    }
    lemma_replaced_without(t, "&amp;"@, "&"@);
}

proof fn lemma_entity_passed(
    a: Seq<char>,
    e: Seq<char>,
    b: Seq<char>,
    pat: Seq<char>,
    with: Seq<char>,
)
    requires
        !a.contains('&'),
        !b.contains('&'),
        pat.len() > 1,
        e.len() > 1,
        pat[0] == '&',
        e[0] == '&',
        e[1] != pat[1],
        !e.skip(1).contains('&'),
    ensures
        text::replaced(a + e + b, pat, with) == a + e + b,
{
    assert(a + (e + b) == a + e + b);
    lemma_replaced_past(a, e + b, pat, with);
    lemma_replaced_past_entity(e, b, pat, with);
    lemma_replaced_without(b, pat, with);
}

/// A page without a list of posts has none, and one that says nothing of more is the last.
pub proof fn law_page_that_says_nothing(page: PostsPage, sc: JsonView)
    requires
        page.is_page(sc),
    ensures
        sc.field("posts"@) is None ==> page.posts@.len() == 0,
        sc.field("pageInfo"@) is None ==> !page.has_next && page.next_cursor is None
            && page.total_posts is None,
{
    assert(json::items_view(page.posts@).len() == page.posts@.len());
}

} // verus!
