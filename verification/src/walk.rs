//! Reading a thread into the cache, page by page.
//!
//! The pages come from elsewhere. [`walk_step`] takes what came for one page, puts it into
//! the cache and says how to go on; the caller fetches.

use vstd::prelude::*;

use crate::cache;
use crate::cache::{Cache, CacheView};
use crate::forum;
use crate::forum::PostsPage;
use crate::json;
use crate::json::{Json, JsonView};
use crate::render;
use crate::text;

verus! {

/// What a page is.
pub struct PageView {
    pub posts: Seq<JsonView>,
    pub next_cursor: Option<Seq<char>>,
    pub has_next: bool,
    pub total_posts: Option<int>,
}

/// What came for a page: the page, or why it did not come.
pub enum ReplyView {
    Page(PageView),
    Failed(Seq<char>),
}

/// How to go on.
pub enum StepView {
    /// Fetch the page behind the cursor, or the first one.
    Next(Option<Seq<char>>),
    /// The thread is in the cache up to its end.
    Done,
    /// The rest did not come; what is in the cache is served, with a warning.
    Interrupted(Seq<char>),
    /// The thread did not come and nothing of it is in the cache.
    Failed(Seq<char>),
}

/// How to go on.
#[derive(Debug)]
pub enum Step {
    /// Fetch the page behind the cursor, or the first one.
    Next(Option<String>),
    /// The thread is in the cache up to its end.
    Done,
    /// The rest did not come; what is in the cache is served, with this warning.
    Interrupted(String),
    /// The thread did not come and nothing of it is in the cache.
    Failed(String),
}

impl Step {
    /// What the step is.
    pub open spec fn view(&self) -> StepView {
        match self {
            Step::Next(c) => StepView::Next(text::seen_string(*c)),
            Step::Done => StepView::Done,
            Step::Interrupted(w) => StepView::Interrupted(w@),
            Step::Failed(e) => StepView::Failed(e@),
        }
    }
}

/// What a page is.
pub open spec fn page_view(page: PostsPage) -> PageView {
    PageView {
        posts: json::items_view(page.posts@),
        next_cursor: text::seen_string(page.next_cursor),
        has_next: page.has_next,
        total_posts: json::seen_int(page.total_posts),
    }
}

/// What came for a page.
pub open spec fn reply_view(reply: Result<PostsPage, String>) -> ReplyView {
    match reply {
        Ok(page) => ReplyView::Page(page_view(page)),
        Err(e) => ReplyView::Failed(e@),
    }
}

/// The warning where the rest of a thread did not come.
pub open spec fn stopped_text(topic_id: int, why: Seq<char>) -> Seq<char> {
    "warning: forum fetch for topic "@ + text::int_text(topic_id) + " stopped ("@ + why
        + "); serving cached posts — re-run to resume."@
}

/// The error where nothing of a thread came.
pub open spec fn fetch_error_text(topic_id: int, why: Seq<char>) -> Seq<char> {
    "fetching forum topic "@ + text::int_text(topic_id) + ": "@ + why
}

/// Whether posts of the topic are in the cache.
pub open spec fn is_cached(v: CacheView, topic_id: int) -> bool {
    cache::topic_posts(v.posts, topic_id).len() > 0
}

/// The cache with something more known of a topic.
pub open spec fn with_cursor(
    v: CacheView,
    topic_id: int,
    posts_count: Option<int>,
    cursor: Option<Seq<char>>,
    now: Seq<char>,
) -> CacheView {
    CacheView {
        posts: v.posts,
        topics: v.topics.insert(
            topic_id,
            cache::merged_topic(
                cache::topic_at(v.topics, topic_id),
                None,
                posts_count,
                0,
                cursor,
                now,
            ),
        ),
    }
}

/// The cache after a reply came that was asked for behind `cursor`.
pub open spec fn cache_after(
    v: CacheView,
    topic_id: int,
    cursor: Option<Seq<char>>,
    reply: ReplyView,
    now: Seq<char>,
) -> CacheView {
    match reply {
        ReplyView::Failed(_) => v,
        ReplyView::Page(page) => if page.posts.len() == 0 {
            if is_cached(v, topic_id) {
                with_cursor(v, topic_id, None, cursor, now)
            } else {
                v
            }
        } else {
            with_cursor(
                CacheView {
                    posts: cache::with_posts(v.posts, topic_id, page.posts, now),
                    topics: v.topics,
                },
                topic_id,
                page.total_posts,
                page.next_cursor,
                now,
            )
        },
    }
}

/// How to go on after a reply.
pub open spec fn step_after(v: CacheView, topic_id: int, reply: ReplyView) -> StepView {
    match reply {
        ReplyView::Failed(why) => if is_cached(v, topic_id) {
            StepView::Interrupted(stopped_text(topic_id, why))
        } else {
            StepView::Failed(fetch_error_text(topic_id, why))
        },
        ReplyView::Page(page) => if page.posts.len() > 0 && page.has_next {
            StepView::Next(page.next_cursor)
        } else {
            StepView::Done
        },
    }
}

/// Where a walk begins: at the start of the thread where it is to be read anew, else where the
/// cache says that reading goes on.
pub open spec fn start_of(v: CacheView, topic_id: int, refresh: bool) -> Option<Seq<char>> {
    if refresh {
        None
    } else {
        match cache::topic_at(v.topics, topic_id) {
            Some(t) => t.cursor,
            None => None,
        }
    }
}

/// Where a walk begins.
pub fn walk_start(cache: &Cache, topic_id: i64, refresh: bool) -> (r: Option<String>)
    requires
        cache.wf(),
    ensures
        text::seen_string(r) == start_of(cache@, topic_id as int, refresh),
{
    if refresh {
        None
    } else {
        cache.topic_cursor(topic_id)
    }
}

/// Takes what came for the page that was asked for behind `cursor`, and says how to go on.
pub fn walk_step(
    cache: &mut Cache,
    topic_id: i64,
    cursor: &Option<String>,
    reply: &Result<PostsPage, String>,
    now: &str,
) -> (r: Step)
    requires
        old(cache).wf(),
    ensures
        final(cache).wf(),
        final(cache)@ == cache_after(
            old(cache)@,
            topic_id as int,
            text::seen_string(*cursor),
            reply_view(*reply),
            now@,
        ),
        r@ == step_after(old(cache)@, topic_id as int, reply_view(*reply)),
{
    match reply {
        Err(e) => {
            let mut out = String::new();
            if cache.post_count(topic_id) > 0 {
                out.append("warning: forum fetch for topic ");
                out.append(text::show_i64(topic_id).as_str());
                out.append(" stopped (");
                out.append(e.as_str());
                out.append("); serving cached posts — re-run to resume.");
                assert(out@ == stopped_text(topic_id as int, e@));
                Step::Interrupted(out)
            } else {
                out.append("fetching forum topic ");
                out.append(text::show_i64(topic_id).as_str());
                out.append(": ");
                out.append(e.as_str());
                assert(out@ == fetch_error_text(topic_id as int, e@));
                Step::Failed(out)
            }
        },
        Ok(page) => {
            assert(json::items_view(page.posts@).len() == page.posts@.len());
            if page.posts.len() == 0 {
                if cache.post_count(topic_id) > 0 {
                    cache.set_topic_cursor(topic_id, None, None, as_text(cursor), now);
                }
                return Step::Done;
            }
            let _ = cache.upsert_posts(topic_id, &page.posts, now);
            cache.set_topic_cursor(
                topic_id,
                None,
                page.total_posts,
                as_text(&page.next_cursor),
                now,
            );
            if page.has_next {
                Step::Next(page.next_cursor.clone())
            } else {
                Step::Done
            }
        },
    }
}

/// The text of a string, where there is one.
fn as_text(o: &Option<String>) -> (r: Option<&str>)
    ensures
        text::seen_text(r) == text::seen_string(*o),
{
    match o {
        Some(s) => Some(s.as_str()),
        None => None,
    }
}

// --- the page in a reply of the server --------------------------------------------------

/// Whether `r` is the page that a tool result holds, or says why it holds none: what the
/// tool said where it failed, else what is wrong with its content.
pub open spec fn is_reply(result: JsonView, r: Result<PostsPage, String>) -> bool {
    if render::is_error(result) {
        r matches Err(e) && e@ == text::trimmed(render::result_text(result))
    } else {
        exists|content: Result<Json, render::ContentError>| #[trigger]
            render::is_content(result, content) && match content {
                Ok(sc) => r matches Ok(page) && page.is_page(sc@),
                Err(why) => r matches Err(e) && e@ == why.words(),
            }
    }
}

/// The page that a tool result holds.
pub fn read_page(result: &Json) -> (r: Result<PostsPage, String>)
    ensures
        is_reply(result@, r),
{
    if let Some(msg) = render::result_error_text(result) {
        return Err(msg);
    }
    let content = render::structured_content(result);
    let ghost c = content;
    assert(render::is_content(result@, c));
    match content {
        Ok(sc) => Ok(forum::parse_posts_page(&sc)),
        Err(e) => Err(e.message()),
    }
}

// --- the whole walk ---------------------------------------------------------------------

/// Where a walk stands: the cache, and how to go on.
pub struct WalkView {
    pub cache: CacheView,
    pub step: StepView,
}

/// Where a walk stands that began at `cursor` and got the replies one after the other. A
/// reply that comes when the walk is over makes no difference.
pub open spec fn walked(
    v: CacheView,
    topic_id: int,
    cursor: Option<Seq<char>>,
    replies: Seq<ReplyView>,
    now: Seq<char>,
) -> WalkView
    decreases replies.len(),
{
    if replies.len() == 0 {
        WalkView { cache: v, step: StepView::Next(cursor) }
    } else {
        let before = walked(v, topic_id, cursor, replies.drop_last(), now);
        match before.step {
            StepView::Next(c) => WalkView {
                cache: cache_after(before.cache, topic_id, c, replies.last(), now),
                step: step_after(before.cache, topic_id, replies.last()),
            },
            _ => before,
        }
    }
}

/// A walk loses no post, wherever it is broken off: what was in the cache stays in it and
/// with its topic.
pub proof fn law_walk_loses_nothing(
    v: CacheView,
    topic_id: int,
    cursor: Option<Seq<char>>,
    replies: Seq<ReplyView>,
    now: Seq<char>,
    id: int,
)
    requires
        v.posts.contains_key(id),
    ensures
        walked(v, topic_id, cursor, replies, now).cache.posts.contains_key(id),
        walked(v, topic_id, cursor, replies, now).cache.posts[id].topic_id == v.posts[id].topic_id,
    decreases replies.len(),
{
    if replies.len() > 0 {
        law_walk_loses_nothing(v, topic_id, cursor, replies.drop_last(), now, id);
        let before = walked(v, topic_id, cursor, replies.drop_last(), now);
        if let StepView::Next(_) = before.step {
            if let ReplyView::Page(page) = replies.last() {
                cache::law_upsert_loses_nothing(
                    before.cache.posts,
                    topic_id,
                    page.posts,
                    now,
                    id,
                );
            }
        }
    }
}

/// The walk can be resumed: wherever it stops to fetch another page, the cache holds the
/// place at which that page begins, if the page before gave one.
pub proof fn law_walk_can_be_resumed(
    v: CacheView,
    topic_id: int,
    cursor: Option<Seq<char>>,
    replies: Seq<ReplyView>,
    now: Seq<char>,
)
    requires
        replies.len() > 0,
    ensures
        match walked(v, topic_id, cursor, replies, now).step {
            StepView::Next(Some(c)) => {
                let topics = walked(v, topic_id, cursor, replies, now).cache.topics;
                topics.contains_key(topic_id) && topics[topic_id].cursor == Some(c)
            },
            _ => true,
        },
{
}

/// Where a fetch fails after a page came, the walk is interrupted, and the cache holds the
/// place at which it is to go on.
pub proof fn law_interrupted_walk_keeps_its_place(
    v: CacheView,
    topic_id: int,
    cursor: Option<Seq<char>>,
    replies: Seq<ReplyView>,
    c: Seq<char>,
    why: Seq<char>,
    now: Seq<char>,
)
    requires
        replies.len() > 0,
        walked(v, topic_id, cursor, replies, now).step == StepView::Next(Some(c)),
    ensures
        ({
            let broken = walked(v, topic_id, cursor, replies.push(ReplyView::Failed(why)), now);
            &&& broken.cache == walked(v, topic_id, cursor, replies, now).cache
            &&& broken.step is Interrupted || broken.step is Failed
            &&& broken.cache.topics.contains_key(topic_id)
            &&& broken.cache.topics[topic_id].cursor == Some(c)
        }),
{
    law_walk_can_be_resumed(v, topic_id, cursor, replies, now);
    assert(replies.push(ReplyView::Failed(why)).drop_last() == replies);
}

proof fn lemma_walk_goes_on(
    v: CacheView,
    topic_id: int,
    cursor: Option<Seq<char>>,
    a: Seq<ReplyView>,
    b: Seq<ReplyView>,
    now: Seq<char>,
)
    requires
        walked(v, topic_id, cursor, a, now).step is Next,
    ensures
        walked(v, topic_id, cursor, a + b, now) == walked(
            walked(v, topic_id, cursor, a, now).cache,
            topic_id,
            walked(v, topic_id, cursor, a, now).step->Next_0,
            b,
            now,
        ),
    decreases b.len(),
{
    if b.len() == 0 {
        assert(a + b == a);
    } else {
        lemma_walk_goes_on(v, topic_id, cursor, a, b.drop_last(), now);
        assert((a + b).drop_last() == a + b.drop_last());
        assert((a + b).last() == b.last());
    }
}

/// A walk that was interrupted and is begun again at the place that the cache holds ends as
/// if it had not been interrupted.
pub proof fn law_resumed_walk_ends_as_one(
    v: CacheView,
    topic_id: int,
    cursor: Option<Seq<char>>,
    a: Seq<ReplyView>,
    c: Seq<char>,
    why: Seq<char>,
    b: Seq<ReplyView>,
    now: Seq<char>,
)
    requires
        a.len() > 0,
        walked(v, topic_id, cursor, a, now).step == StepView::Next(Some(c)),
    ensures
        ({
            let broken = walked(v, topic_id, cursor, a.push(ReplyView::Failed(why)), now).cache;
            walked(broken, topic_id, broken.topics[topic_id].cursor, b, now) == walked(
                v,
                topic_id,
                cursor,
                a + b,
                now,
            )
        }),
{
    law_interrupted_walk_keeps_its_place(v, topic_id, cursor, a, c, why, now);
    lemma_walk_goes_on(v, topic_id, cursor, a, b, now);
}

/// A failed fetch leaves the cache as it was; it is an error only where the cache holds
/// nothing to serve.
pub proof fn law_failed_fetch_serves_the_cache(
    v: CacheView,
    topic_id: int,
    cursor: Option<Seq<char>>,
    why: Seq<char>,
    now: Seq<char>,
)
    ensures
        cache_after(v, topic_id, cursor, ReplyView::Failed(why), now) == v,
        step_after(v, topic_id, ReplyView::Failed(why)) is Failed <==> !is_cached(v, topic_id),
        step_after(v, topic_id, ReplyView::Failed(why)) is Interrupted <==> is_cached(v, topic_id),
{
}

/// A topic of which nothing came and nothing is in the cache is not noted there.
pub proof fn law_empty_topic_is_not_noted(
    v: CacheView,
    topic_id: int,
    cursor: Option<Seq<char>>,
    page: PageView,
    now: Seq<char>,
)
    requires
        page.posts.len() == 0,
        !is_cached(v, topic_id),
    ensures
        cache_after(v, topic_id, cursor, ReplyView::Page(page), now) == v,
        step_after(v, topic_id, ReplyView::Page(page)) == StepView::Done,
{
}

/// After a page that came with posts the walk goes on exactly where the page says that another
/// follows, whatever the number of posts: behind the cursor that the page gives.
pub proof fn law_page_says_whether_the_walk_goes_on(v: CacheView, topic_id: int, page: PageView)
    requires
        page.posts.len() > 0,
    ensures
        page.has_next ==> step_after(v, topic_id, ReplyView::Page(page)) == StepView::Next(
            page.next_cursor,
        ),
        !page.has_next ==> step_after(v, topic_id, ReplyView::Page(page)) == StepView::Done,
{
}

/// The posts of pages, one behind the other.
pub open spec fn posts_of_pages(pages: Seq<PageView>) -> Seq<JsonView>
    decreases pages.len(),
{
    if pages.len() == 0 {
        seq![]
    } else {
        posts_of_pages(pages.drop_last()) + pages.last().posts
    }
}

/// Pages as replies.
pub open spec fn as_replies(pages: Seq<PageView>) -> Seq<ReplyView> {
    pages.map_values(|p: PageView| ReplyView::Page(p))
}

proof fn lemma_pages_are_kept(
    v: CacheView,
    topic_id: int,
    cursor: Option<Seq<char>>,
    pages: Seq<PageView>,
    now: Seq<char>,
)
    requires
        forall|i: int| 0 <= i < pages.len() ==> (#[trigger] pages[i]).posts.len() > 0,
        forall|i: int| 0 <= i < pages.len() - 1 ==> (#[trigger] pages[i]).has_next,
    ensures
        ({
            let end = walked(v, topic_id, cursor, as_replies(pages), now);
            &&& end.cache.posts == cache::with_posts(v.posts, topic_id, posts_of_pages(pages), now)
            &&& pages.len() == 0 ==> end.step == StepView::Next(cursor)
            &&& pages.len() > 0 && pages.last().has_next ==> end.step == StepView::Next(
                pages.last().next_cursor,
            )
            &&& pages.len() > 0 && !pages.last().has_next ==> end.step == StepView::Done
        }),
    decreases pages.len(),
{
    if pages.len() > 0 {
        let before = pages.drop_last();
        assert forall|i: int| 0 <= i < before.len() implies (#[trigger] before[i]).posts.len() > 0 by {
            assert(before[i] == pages[i]);
        }
        assert forall|i: int| 0 <= i < before.len() implies (#[trigger] before[i]).has_next by {
            assert(before[i] == pages[i]);
        }
        lemma_pages_are_kept(v, topic_id, cursor, before, now);
        assert(as_replies(pages).drop_last() == as_replies(before));
        assert(as_replies(pages).last() == ReplyView::Page(pages.last()));
        assert(before.len() > 0 ==> before.last() == pages[pages.len() - 2]);
        assert(pages[pages.len() - 1].posts.len() > 0);
        cache::law_batches_add_up(
            v.posts,
            topic_id,
            posts_of_pages(before),
            pages.last().posts,
            now,
        );
    }
}

/// A thread whose pages all come is read whole: as long as a page says that another follows the
/// walk goes on, behind the last one it is done, and then every numbered post of every page is
/// in the cache.
pub proof fn law_thread_is_read_whole(
    v: CacheView,
    topic_id: int,
    cursor: Option<Seq<char>>,
    pages: Seq<PageView>,
    now: Seq<char>,
    i: int,
    j: int,
    id: int,
)
    requires
        forall|k: int| 0 <= k < pages.len() ==> (#[trigger] pages[k]).posts.len() > 0,
        forall|k: int| 0 <= k < pages.len() ==> ((#[trigger] pages[k]).has_next <==> k < pages.len() - 1),
        0 <= i < pages.len(),
        0 <= j < pages[i].posts.len(),
        pages[i].posts[j].field("id"@) == Some(JsonView::Int(id)),
        i64::MIN <= id <= i64::MAX,
    ensures
        walked(v, topic_id, cursor, as_replies(pages), now).step == StepView::Done,
        walked(v, topic_id, cursor, as_replies(pages), now).cache.posts.contains_key(id),
        walked(v, topic_id, cursor, as_replies(pages), now).cache.posts[id].topic_id == (
        if v.posts.contains_key(id) {
            v.posts[id].topic_id
        } else {
            topic_id
        }),
        forall|k: int|
            0 < k < pages.len() ==> #[trigger] walked(
                v,
                topic_id,
                cursor,
                as_replies(pages.take(k)),
                now,
            ).step == StepView::Next(pages[k - 1].next_cursor),
{
    assert(pages[pages.len() - 1].has_next == false);
    lemma_pages_are_kept(v, topic_id, cursor, pages, now);
    lemma_post_is_among_them(pages, i, j);
    let all = posts_of_pages(pages);
    let k = choose|k: int| 0 <= k < all.len() && all[k] == pages[i].posts[j];
    cache::law_numbered_post_is_kept(v.posts, topic_id, all, now, k, id);
    assert forall|k: int| 0 < k < pages.len() implies #[trigger] walked(
        v,
        topic_id,
        cursor,
        as_replies(pages.take(k)),
        now,
    ).step == StepView::Next(pages[k - 1].next_cursor) by {
        let some = pages.take(k);
        assert forall|m: int| 0 <= m < some.len() implies (#[trigger] some[m]).posts.len() > 0 by {
            assert(some[m] == pages[m]);
        }
        assert forall|m: int| 0 <= m < some.len() implies (#[trigger] some[m]).has_next by {
            assert(some[m] == pages[m]);
        }
        lemma_pages_are_kept(v, topic_id, cursor, some, now);
        assert(some.last() == pages[k - 1]);
        assert(pages[k - 1].has_next);
    }
}

proof fn lemma_post_is_among_them(pages: Seq<PageView>, i: int, j: int)
    requires
        0 <= i < pages.len(),
        0 <= j < pages[i].posts.len(),
    ensures
        posts_of_pages(pages).contains(pages[i].posts[j]),
    decreases pages.len(),
{
    let before = pages.drop_last();
    let head = posts_of_pages(before);
    let all = posts_of_pages(pages);
    if i < pages.len() - 1 {
        lemma_post_is_among_them(before, i, j);
        let k = choose|k: int| 0 <= k < head.len() && head[k] == pages[i].posts[j];
        assert(all[k] == pages[i].posts[j]);
    } else {
        assert(all[head.len() + j] == pages[i].posts[j]);
    }
}

/// The cache notes with each page where the next one begins, how large the thread is said to
/// be, and when it was read; of other topics it notes nothing.
pub proof fn law_page_is_noted(
    v: CacheView,
    topic_id: int,
    cursor: Option<Seq<char>>,
    page: PageView,
    now: Seq<char>,
    other: int,
)
    requires
        page.posts.len() > 0,
        other != topic_id,
    ensures
        ({
            let after = cache_after(v, topic_id, cursor, ReplyView::Page(page), now);
            let noted = after.topics[topic_id];
            &&& after.topics.contains_key(topic_id)
            &&& noted.synced_at == Some(now)
            &&& page.next_cursor is Some ==> noted.cursor == page.next_cursor
            &&& page.total_posts is Some ==> noted.posts_count == page.total_posts
            &&& v.topics.contains_key(topic_id) ==> noted.title == v.topics[topic_id].title
            &&& after.topics.contains_key(other) <==> v.topics.contains_key(other)
            &&& v.topics.contains_key(other) ==> after.topics[other] == v.topics[other]
        }),
{
}

/// A page without posts changes no post, and of a topic in the cache only when it was read and
/// where reading goes on, and that only where something is said of it.
pub proof fn law_empty_page_changes_no_post(
    v: CacheView,
    topic_id: int,
    cursor: Option<Seq<char>>,
    page: PageView,
    now: Seq<char>,
)
    requires
        page.posts.len() == 0,
    ensures
        ({
            let after = cache_after(v, topic_id, cursor, ReplyView::Page(page), now);
            &&& step_after(v, topic_id, ReplyView::Page(page)) == StepView::Done
            &&& after.posts == v.posts
            &&& is_cached(v, topic_id) && v.topics.contains_key(topic_id) ==> {
                let noted = after.topics[topic_id];
                let was = v.topics[topic_id];
                &&& noted.synced_at == Some(now)
                &&& noted.title == was.title
                &&& noted.posts_count == was.posts_count
                &&& noted.cursor == (if cursor is Some {
                    cursor
                } else {
                    was.cursor
                })
            }
        }),
{
}

/// A walk begins anew where that was asked for; else it begins where the last page that came
/// said that the next one begins.
pub proof fn law_walk_begins_where_the_last_one_ended(
    v: CacheView,
    topic_id: int,
    cursor: Option<Seq<char>>,
    page: PageView,
    c: Seq<char>,
    now: Seq<char>,
)
    requires
        page.posts.len() > 0,
        page.next_cursor == Some(c),
    ensures
        ({
            let after = cache_after(v, topic_id, cursor, ReplyView::Page(page), now);
            &&& start_of(after, topic_id, false) == Some(c)
            &&& start_of(after, topic_id, true) is None
        }),
        !v.topics.contains_key(topic_id) ==> start_of(v, topic_id, false) is None,
{
}

/// Where a fetch fails the reason is said, as a warning or as an error.
pub proof fn law_failure_says_why(v: CacheView, topic_id: int, why: Seq<char>)
    ensures
        match step_after(v, topic_id, ReplyView::Failed(why)) {
            StepView::Interrupted(w) => is_cached(v, topic_id) && text::holds(w, why),
            StepView::Failed(e) => !is_cached(v, topic_id) && text::holds(e, why),
            _ => false,
        },
{
    text::lemma_holds(
        "warning: forum fetch for topic "@ + text::int_text(topic_id) + " stopped ("@,
        why,
        "); serving cached posts — re-run to resume."@,
    );
    let start = "fetching forum topic "@ + text::int_text(topic_id) + ": "@;
    text::lemma_holds(start, why, seq![]);
    assert(start + why + Seq::<char>::empty() == start + why);
}

/// A reply that carries structured content and no failure is the page that the content holds.
pub proof fn law_reply_is_its_content(
    result: JsonView,
    sc: JsonView,
    r: Result<PostsPage, String>,
)
    requires
        is_reply(result, r),
        result.field("isError"@) != Some(JsonView::Bool(true)),
        result.field("structuredContent"@) == Some(sc),
    ensures
        r matches Ok(page) && page.is_page(sc),
{
}

/// A page is seen with all its posts, its cursor, what it says of more, and the size of the
/// thread; a failure with its reason.
pub proof fn law_reply_is_seen_as_it_came(page: PostsPage, why: String)
    ensures
        reply_view(Err::<PostsPage, String>(why)) == ReplyView::Failed(why@),
        ({
            let seen = reply_view(Ok::<PostsPage, String>(page));
            &&& seen is Page
            &&& seen->Page_0.posts.len() == page.posts@.len()
            &&& forall|i: int|
                0 <= i < page.posts@.len() ==> seen->Page_0.posts[i] == (
                #[trigger] page.posts@[i])@
            &&& seen->Page_0.has_next == page.has_next
            &&& seen->Page_0.next_cursor == text::seen_string(page.next_cursor)
            &&& seen->Page_0.total_posts == json::seen_int(page.total_posts)
        }),
{
}

/// Where a tool failed, the reply is the failure that it tells of, without white space around it.
pub proof fn law_failed_reply_says_why(result: JsonView, r: Result<PostsPage, String>)
    requires
        is_reply(result, r),
        result.field("isError"@) == Some(JsonView::Bool(true)),
    ensures
        r is Err && r->Err_0@ == text::trimmed(render::result_text(result)),
{
}

} // verus!
