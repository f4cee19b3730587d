//! The forum cache: posts by number, topics by number, and the rules by which both are
//! written and read.
//!
//! The rows are held in memory here; keeping them in a file is the caller's part. The time
//! of a change is handed in with the change.

use vstd::prelude::*;

use crate::forum;
use crate::json;
use crate::json::{Json, JsonMap, JsonView};
use crate::table;
use crate::table::{Row, Table};
use crate::text;

verus! {

// --- what the cache holds -----------------------------------------------------------

/// What the cache holds of a post.
pub struct PostView {
    pub topic_id: int,
    pub post_number: Option<int>,
    pub username: Option<Seq<char>>,
    pub created_at: Option<Seq<char>>,
    pub updated_at: Option<Seq<char>>,
    pub cooked: Option<Seq<char>>,
    pub text: Option<Seq<char>>,
    pub raw: Option<Seq<char>>,
    pub fetched_at: Option<Seq<char>>,
}

/// What the cache holds of a topic.
pub struct TopicView {
    pub title: Option<Seq<char>>,
    pub posts_count: Option<int>,
    pub last_page: int,
    pub cursor: Option<Seq<char>>,
    pub synced_at: Option<Seq<char>>,
}

/// What the cache holds.
#[verifier::ext_equal]
pub struct CacheView {
    pub posts: Map<int, PostView>,
    pub topics: Map<int, TopicView>,
}

/// The row of a post.
#[derive(Debug)]
pub struct PostRow {
    pub id: i64,
    pub topic_id: i64,
    pub post_number: Option<i64>,
    pub username: Option<String>,
    pub created_at: Option<String>,
    pub updated_at: Option<String>,
    /// The body as the server sent it.
    pub cooked: Option<String>,
    /// The body as clean text.
    pub text: Option<String>,
    /// The whole post as JSON text.
    pub raw: Option<String>,
    pub fetched_at: Option<String>,
}

/// The row of a topic.
#[derive(Debug)]
pub struct TopicRow {
    pub id: i64,
    pub title: Option<String>,
    pub posts_count: Option<i64>,
    /// The highest page that was read.
    pub last_page: u32,
    /// Where the next page of posts begins.
    pub cursor: Option<String>,
    pub synced_at: Option<String>,
}

impl View for PostRow {
    type V = PostView;

    open spec fn view(&self) -> PostView {
        PostView {
            topic_id: self.topic_id as int,
            post_number: json::seen_int(self.post_number),
            username: text::seen_string(self.username),
            created_at: text::seen_string(self.created_at),
            updated_at: text::seen_string(self.updated_at),
            cooked: text::seen_string(self.cooked),
            text: text::seen_string(self.text),
            raw: text::seen_string(self.raw),
            fetched_at: text::seen_string(self.fetched_at),
        }
    }
}

impl Row for PostRow {
    open spec fn key(&self) -> int {
        self.id as int
    }

    fn id(&self) -> (r: i64) {
        self.id
    }
}

impl View for TopicRow {
    type V = TopicView;

    open spec fn view(&self) -> TopicView {
        TopicView {
            title: text::seen_string(self.title),
            posts_count: json::seen_int(self.posts_count),
            last_page: self.last_page as int,
            cursor: text::seen_string(self.cursor),
            synced_at: text::seen_string(self.synced_at),
        }
    }
}

impl Row for TopicRow {
    open spec fn key(&self) -> int {
        self.id as int
    }

    fn id(&self) -> (r: i64) {
        self.id
    }
}

/// The cache.
pub struct Cache {
    posts: Table<PostRow>,
    topics: Table<TopicRow>,
}

impl Cache {
    /// Whether no two posts and no two topics have the same number.
    pub closed spec fn wf(&self) -> bool {
        self.posts.wf() && self.topics.wf()
    }

    /// What the cache holds.
    pub closed spec fn view(&self) -> CacheView {
        CacheView { posts: self.posts@, topics: self.topics@ }
    }

    /// A cache that holds nothing.
    pub fn new() -> (r: Cache)
        ensures
            r.wf(),
            r@.posts == Map::<int, PostView>::empty(),
            r@.topics == Map::<int, TopicView>::empty(),
    {
        Cache { posts: Table::new(), topics: Table::new() }
    }
}

// --- posts ----------------------------------------------------------------------------

/// The clean text of a post: as the post gives it, or its body without HTML.
pub open spec fn clean_text(p: JsonView) -> Option<Seq<char>> {
    match p.text_field("text"@) {
        Some(t) => Some(t),
        None => match p.text_field("cooked"@) {
            Some(c) => Some(forum::stripped(c)),
            None => None,
        },
    }
}

/// What the cache holds of the post `p` once it was put in at the time `now`.
pub open spec fn post_of(p: JsonView, topic_id: int, now: Seq<char>) -> PostView {
    PostView {
        topic_id,
        post_number: p.int_field("post_number"@),
        username: p.text_field("username"@),
        created_at: p.text_field("created_at"@),
        updated_at: p.text_field("updated_at"@),
        cooked: p.text_field("cooked"@),
        text: clean_text(p),
        raw: Some(json::text_of_json(p)),
        fetched_at: Some(now),
    }
}

/// The posts once `p` was put in. A post without a number is passed over; one that is
/// there already is renewed and stays with its topic.
pub open spec fn with_post(
    posts: Map<int, PostView>,
    topic_id: int,
    p: JsonView,
    now: Seq<char>,
) -> Map<int, PostView> {
    match p.int_field("id"@) {
        None => posts,
        Some(id) => posts.insert(
            id,
            post_of(
                p,
                if posts.contains_key(id) {
                    posts[id].topic_id
                } else {
                    topic_id
                },
                now,
            ),
        ),
    }
}

/// The posts once a batch was put in, one after the other.
pub open spec fn with_posts(
    posts: Map<int, PostView>,
    topic_id: int,
    batch: Seq<JsonView>,
    now: Seq<char>,
) -> Map<int, PostView>
    decreases batch.len(),
{
    if batch.len() == 0 {
        posts
    } else {
        with_post(with_posts(posts, topic_id, batch.drop_last(), now), topic_id, batch.last(), now)
    }
}

/// How many posts of a batch have a number.
pub open spec fn numbered(batch: Seq<JsonView>) -> nat
    decreases batch.len(),
{
    if batch.len() == 0 {
        0
    } else if batch.last().int_field("id"@) is Some {
        numbered(batch.drop_last()) + 1
    } else {
        numbered(batch.drop_last())
    }
}

/// The last post of a batch that has the number.
pub open spec fn last_with(batch: Seq<JsonView>, id: int) -> Option<JsonView>
    decreases batch.len(),
{
    if batch.len() == 0 {
        None
    } else if batch.last().int_field("id"@) == Some(id) {
        Some(batch.last())
    } else {
        last_with(batch.drop_last(), id)
    }
}

/// A string of one's own, where there is a text.
fn owned(o: Option<&str>) -> (r: Option<String>)
    ensures
        text::seen_string(r) == text::seen_text(o),
{
    match o {
        Some(s) => Some(s.to_owned()),
        None => None,
    }
}

/// Whether `shown` is what may be read of the post `p` once it was put in: the post itself; or
/// where it holds fractions or is too deep to be read back, the post but for its fractions,
/// or what the columns hold.
pub open spec fn reads_back(p: JsonView, shown: JsonView, columns: JsonView) -> bool {
    &&& p.fits(127) ==> shown == p
    &&& p.alike(shown) || shown == columns
}

/// The row of the post `p`.
fn row_of(p: &Json, id: i64, topic_id: i64, now: &str) -> (r: PostRow)
    ensures
        r.id == id,
        r@ == post_of(p@, topic_id as int, now@),
        reads_back(p@, shown_post(id as int, r@), columns_post(id as int, r@)),
{
    let clean = match p.get_str("text") {
        Some(t) => Some(t.to_owned()),
        None => match p.get_str("cooked") {
            Some(c) => Some(forum::strip_html(c)),
            None => None,
        },
    };
    PostRow {
        id,
        topic_id,
        post_number: p.get_i64("post_number"),
        username: owned(p.get_str("username")),
        created_at: owned(p.get_str("created_at")),
        updated_at: owned(p.get_str("updated_at")),
        cooked: owned(p.get_str("cooked")),
        text: clean,
        raw: Some(p.to_text()),
        fetched_at: Some(now.to_owned()),
    }
}

impl Cache {
    /// Puts a batch of posts in and says how many of them had a number. What can be read of
    /// each from then on is its last version in the batch.
    pub fn upsert_posts(&mut self, topic_id: i64, posts: &Vec<Json>, now: &str) -> (r: usize)
        requires
            old(self).wf(),
        ensures
            final(self).wf(),
            final(self)@.posts == with_posts(
                old(self)@.posts,
                topic_id as int,
                json::items_view(posts@),
                now@,
            ),
            final(self)@.topics == old(self)@.topics,
            r == numbered(json::items_view(posts@)),
            forall|id: int|
                #![trigger final(self)@.posts[id]]
                match last_with(json::items_view(posts@), id) {
                    Some(p) => reads_back(
                        p,
                        shown_post(id, final(self)@.posts[id]),
                        columns_post(id, final(self)@.posts[id]),
                    ),
                    None => true,
                },
    {
        let ghost batch = json::items_view(posts@);
        let ghost before = self.posts@;
        let mut count: usize = 0;
        let mut i: usize = 0;
        while i < posts.len()
            invariant
                i <= posts@.len(),
                batch == json::items_view(posts@),
                self.wf(),
                self.topics == old(self).topics,
                before == old(self).posts@,
                self.posts@ == with_posts(before, topic_id as int, batch.take(i as int), now@),
                count == numbered(batch.take(i as int)),
                count <= i,
                forall|id: int|
                    #![trigger self.posts@[id]]
                    match last_with(batch.take(i as int), id) {
                        Some(p) => reads_back(
                            p,
                            shown_post(id, self.posts@[id]),
                            columns_post(id, self.posts@[id]),
                        ),
                        None => true,
                    },
            decreases posts@.len() - i,
        {
            let ghost head = batch.take(i + 1);
            let ghost so_far = self.posts@;
            assert(head.drop_last() == batch.take(i as int));
            assert(head.last() == posts@[i as int]@);
            if let Some(id) = posts[i].get_i64("id") {
                let topic: i64 = match self.posts.get(id) {
                    Some(row) => row.topic_id,
                    None => topic_id,
                };
                let row = row_of(&posts[i], id, topic, now);
                let ghost v = row@;
                self.posts.put(row);
                count += 1;
                assert(self.posts@ == with_post(so_far, topic_id as int, head.last(), now@));
                assert forall|k: int| #![trigger self.posts@[k]]
                    match last_with(head, k) {
                        Some(p) => reads_back(
                            p,
                            shown_post(k, self.posts@[k]),
                            columns_post(k, self.posts@[k]),
                        ),
                        None => true,
                    } by {
                    if k != id {
                        assert(self.posts@[k] == so_far[k]);
                    }
                }
            }
            i += 1;
        }
        assert(batch.take(i as int) == batch);
        count
    }
}

/// A post made of its columns.
pub open spec fn columns_post(id: int, p: PostView) -> JsonView {
    JsonView::Object(
        Map::<Seq<char>, JsonView>::empty().insert("id"@, JsonView::Int(id)).insert(
            "post_number"@,
            json::int_or_null(p.post_number),
        ).insert("username"@, json::text_or_null(p.username)).insert(
            "created_at"@,
            json::text_or_null(p.created_at),
        ).insert("updated_at"@, json::text_or_null(p.updated_at)).insert(
            "cooked"@,
            json::text_or_null(p.cooked),
        ),
    )
}

/// A post as it is read: the whole of it out of its JSON text, or what the columns hold
/// where that text is missing or cannot be read.
pub open spec fn shown_post(id: int, p: PostView) -> JsonView {
    match p.raw {
        Some(raw) => match json::json_of_text(raw) {
            Ok(v) => v,
            Err(_) => columns_post(id, p),
        },
        None => columns_post(id, p),
    }
}

/// Whether post `a` stands before post `b` in a thread: by post number, those without one
/// first, and by `id` where that is the same.
pub open spec fn earlier(posts: Map<int, PostView>, a: int, b: int) -> bool {
    match (posts[a].post_number, posts[b].post_number) {
        (None, None) => a < b,
        (None, Some(_)) => true,
        (Some(_), None) => false,
        (Some(m), Some(n)) => m < n || (m == n && a < b),
    }
}

/// Whether `id` is a post of the topic.
pub open spec fn in_topic(posts: Map<int, PostView>, topic_id: int, id: int) -> bool {
    posts.contains_key(id) && posts[id].topic_id == topic_id
}

/// Whether `ids` are the posts of a topic, each once and in the order of the thread.
pub open spec fn lists(posts: Map<int, PostView>, topic_id: int, ids: Seq<int>) -> bool {
    &&& forall|i: int, j: int|
        0 <= i < j < ids.len() ==> earlier(posts, #[trigger] ids[i], #[trigger] ids[j])
    &&& forall|id: int| #[trigger] ids.contains(id) <==> in_topic(posts, topic_id, id)
}

/// The posts of a topic in the order of the thread.
pub open spec fn thread(posts: Map<int, PostView>, topic_id: int) -> Seq<int> {
    choose|ids: Seq<int>| lists(posts, topic_id, ids)
}

/// The given posts as they are read.
pub open spec fn shown_posts(posts: Map<int, PostView>, ids: Seq<int>) -> Seq<JsonView> {
    ids.map_values(|id: int| shown_post(id, posts[id]))
}

/// The posts of a topic.
pub open spec fn topic_posts(posts: Map<int, PostView>, topic_id: int) -> Set<int> {
    posts.dom().filter(|id: int| posts[id].topic_id == topic_id)
}

/// Whether the row of one post stands before that of another in a thread.
spec fn row_before(a: PostRow, b: PostRow) -> bool {
    match (a.post_number, b.post_number) {
        (None, None) => a.id < b.id,
        (None, Some(_)) => true,
        (Some(_), None) => false,
        (Some(m), Some(n)) => m < n || (m == n && a.id < b.id),
    }
}

/// Whether the row of one post stands before that of another in a thread.
fn is_before(a: &PostRow, b: &PostRow) -> (r: bool)
    ensures
        r == row_before(*a, *b),
{
    match (a.post_number, b.post_number) {
        (None, None) => a.id < b.id,
        (None, Some(_)) => true,
        (Some(_), None) => false,
        (Some(m), Some(n)) => m < n || (m == n && a.id < b.id),
    }
}

/// A post as it is read.
fn show_row(row: &PostRow) -> (r: Json)
    ensures
        r@ == shown_post(row.id as int, row@),
{
    if let Some(raw) = &row.raw {
        if let Ok(v) = Json::parse(raw.as_str()) {
            return v;
        }
    }
    let mut out = JsonMap::new();
    out.insert("id", Json::Int(row.id));
    out.insert("post_number", Json::opt_int(row.post_number));
    out.insert("username", Json::opt_text(borrowed(&row.username)));
    out.insert("created_at", Json::opt_text(borrowed(&row.created_at)));
    out.insert("updated_at", Json::opt_text(borrowed(&row.updated_at)));
    out.insert("cooked", Json::opt_text(borrowed(&row.cooked)));
    Json::Object(out)
}

/// The text of a string, where there is one.
fn borrowed(o: &Option<String>) -> (r: Option<&str>)
    ensures
        text::seen_text(r) == text::seen_string(*o),
{
    match o {
        Some(s) => Some(s.as_str()),
        None => None,
    }
}

/// Puts the row at place `n` where it belongs among the places that are in order already.
fn insert_place(rows: &Table<PostRow>, order: &mut Vec<usize>, n: usize)
    requires
        rows.wf(),
        n < rows.rows().len(),
        forall|i: int| 0 <= i < old(order)@.len() ==> (#[trigger] old(order)@[i]) < n,
        forall|i: int, j: int|
            0 <= i < j < old(order)@.len() ==> row_before(
                rows.rows()[#[trigger] old(order)@[i] as int],
                rows.rows()[#[trigger] old(order)@[j] as int],
            ),
    ensures
        forall|i: int, j: int|
            0 <= i < j < final(order)@.len() ==> row_before(
                rows.rows()[#[trigger] final(order)@[i] as int],
                rows.rows()[#[trigger] final(order)@[j] as int],
            ),
        forall|k: usize|
            #[trigger] final(order)@.contains(k) <==> k == n || old(order)@.contains(k),
        forall|i: int| 0 <= i < final(order)@.len() ==> (#[trigger] final(order)@[i]) <= n,
{
    let ghost all = rows.rows();
    let ghost before = order@;
    let mut at: usize = order.len();
    while at > 0 && !is_before(rows.row(order[at - 1]), rows.row(n))
        invariant
            at <= order@.len(),
            order@ == before,
            all == rows.rows(),
            rows.wf(),
            n < all.len(),
            forall|i: int| 0 <= i < before.len() ==> (#[trigger] before[i]) < n,
            forall|i: int|
                at <= i < before.len() ==> row_before(
                    all[n as int],
                    all[#[trigger] before[i] as int],
                ),
        decreases at,
    {
        assert(all[before[at - 1] as int].key() != all[n as int].key());
        at = at - 1;
    }
    order.insert(at, n);
    proof {
        let after = order@;
        assert(after == before.insert(at as int, n));
        assert forall|i: int, j: int| 0 <= i < j < after.len() implies row_before(
            all[#[trigger] after[i] as int],
            all[#[trigger] after[j] as int],
        ) by {
            if i < at && j == at {
                if i < at - 1 {
                    assert(row_before(all[before[i] as int], all[before[at - 1] as int]));
                }
            }
        }
        assert forall|k: usize| #[trigger] after.contains(k) <==> k == n || before.contains(k) by {
            if after.contains(k) && k != n {
                let i = choose|i: int| 0 <= i < after.len() && after[i] == k;
                if i < at {
                    assert(before[i] == k);
                } else {
                    assert(before[i - 1] == k);
                }
            }
            if before.contains(k) {
                let i = choose|i: int| 0 <= i < before.len() && before[i] == k;
                if i < at {
                    assert(after[i] == k);
                } else {
                    assert(after[i + 1] == k);
                }
            }
            assert(after[at as int] == n);
        }
    }
}

impl Cache {
    /// The posts of a topic in the order of the thread, as they are read.
    pub fn get_posts(&self, topic_id: i64) -> (r: Vec<Json>)
        requires
            self.wf(),
        ensures
            lists(self@.posts, topic_id as int, thread(self@.posts, topic_id as int)),
            json::items_view(r@) == shown_posts(
                self@.posts,
                thread(self@.posts, topic_id as int),
            ),
    {
        let ghost rows = self.posts.rows();
        let mut order: Vec<usize> = Vec::new();
        let mut n: usize = 0;
        while n < self.posts.len()
            invariant
                n <= rows.len(),
                rows == self.posts.rows(),
                self.posts.wf(),
                forall|i: int| 0 <= i < order@.len() ==> (#[trigger] order@[i]) < n,
                forall|i: int, j: int|
                    0 <= i < j < order@.len() ==> row_before(
                        rows[#[trigger] order@[i] as int],
                        rows[#[trigger] order@[j] as int],
                    ),
                forall|k: usize|
                    #[trigger] order@.contains(k) <==> k < n && rows[k as int].topic_id == topic_id,
            decreases rows.len() - n,
        {
            if self.posts.row(n).topic_id == topic_id {
                insert_place(&self.posts, &mut order, n);
            }
            n += 1;
        }
        let ghost ids = Seq::new(order@.len(), |i: int| rows[order@[i] as int].id as int);
        proof {
            self.lemma_order_lists(order@, topic_id as int);
            lemma_thread(self.posts@, topic_id as int, ids);
        }
        let mut out: Vec<Json> = Vec::new();
        let mut i: usize = 0;
        while i < order.len()
            invariant
                i <= order@.len(),
                rows == self.posts.rows(),
                self.posts.wf(),
                forall|j: int| 0 <= j < order@.len() ==> (#[trigger] order@[j]) < rows.len(),
                ids.len() == order@.len(),
                forall|j: int|
                    0 <= j < ids.len() ==> #[trigger] ids[j] == rows[order@[j] as int].id as int,
                out@.len() == i,
                forall|j: int|
                    0 <= j < i ==> (#[trigger] out@[j])@ == shown_post(
                        ids[j],
                        self.posts@[ids[j]],
                    ),
            decreases order@.len() - i,
        {
            proof {
                table::lemma_row_at(rows, order@[i as int] as int);
            }
            out.push(show_row(self.posts.row(order[i])));
            i += 1;
        }
        assert(json::items_view(out@) =~= shown_posts(self@.posts, ids));
        out
    }

    proof fn lemma_order_lists(&self, order: Seq<usize>, topic_id: int)
        requires
            self.posts.wf(),
            forall|i: int| 0 <= i < order.len() ==> (#[trigger] order[i]) < self.posts.rows().len(),
            forall|i: int, j: int|
                0 <= i < j < order.len() ==> row_before(
                    self.posts.rows()[#[trigger] order[i] as int],
                    self.posts.rows()[#[trigger] order[j] as int],
                ),
            forall|k: usize|
                #[trigger] order.contains(k) <==> k < self.posts.rows().len()
                    && self.posts.rows()[k as int].topic_id == topic_id,
            self.posts.rows().len() <= usize::MAX,
        ensures
            lists(
                self.posts@,
                topic_id,
                Seq::new(order.len(), |i: int| self.posts.rows()[order[i] as int].id as int),
            ),
    {
        let rows = self.posts.rows();
        let posts = self.posts@;
        let ids = Seq::new(order.len(), |i: int| rows[order[i] as int].id as int);
        assert forall|i: int, j: int| 0 <= i < j < ids.len() implies earlier(
            posts,
            #[trigger] ids[i],
            #[trigger] ids[j],
        ) by {
            table::lemma_row_at(rows, order[i] as int);
            table::lemma_row_at(rows, order[j] as int);
            assert(row_before(rows[order[i] as int], rows[order[j] as int]));
        }
        assert forall|id: int| #[trigger] ids.contains(id) <==> in_topic(posts, topic_id, id) by {
            if ids.contains(id) {
                let i = choose|i: int| 0 <= i < ids.len() && ids[i] == id;
                table::lemma_row_at(rows, order[i] as int);
                assert(order.contains(order[i]));
            }
            if in_topic(posts, topic_id, id) {
                assert(table::has_row(rows, id));
                let k = table::row_place(rows, id);
                table::lemma_row_at(rows, k);
                assert(order.contains(k as usize));
                let i = choose|i: int| 0 <= i < order.len() && order[i] == k as usize;
                assert(ids[i] == id);
            }
        }
    }

    /// How many posts of a topic there are.
    pub fn post_count(&self, topic_id: i64) -> (r: usize)
        requires
            self.wf(),
        ensures
            r == topic_posts(self@.posts, topic_id as int).len(),
    {
        let ghost rows = self.posts.rows();
        let ghost mut seen = Set::<int>::empty();
        let mut count: usize = 0;
        let mut n: usize = 0;
        while n < self.posts.len()
            invariant
                n <= rows.len(),
                rows == self.posts.rows(),
                self.posts.wf(),
                count <= n,
                seen.finite(),
                count == seen.len(),
                forall|id: int| #[trigger]
                    seen.contains(id) <==> exists|k: int|
                        0 <= k < n && (#[trigger] rows[k]).id == id && rows[k].topic_id == topic_id,
            decreases rows.len() - n,
        {
            let ghost before = seen;
            if self.posts.row(n).topic_id == topic_id {
                count += 1;
                proof {
                    let id = rows[n as int].id as int;
                    if seen.contains(id) {
                        let k = choose|k: int|
                            0 <= k < n && (#[trigger] rows[k]).id == id && rows[k].topic_id
                                == topic_id;
                        assert(rows[k].key() != rows[n as int].key());
                    }
                    seen = seen.insert(id);
                }
            }
            assert forall|id: int| #[trigger] seen.contains(id) <==> exists|k: int|
                0 <= k < n + 1 && (#[trigger] rows[k]).id == id && rows[k].topic_id == topic_id by {
                if seen.contains(id) {
                    if before.contains(id) {
                        let k = choose|k: int|
                            0 <= k < n && (#[trigger] rows[k]).id == id && rows[k].topic_id
                                == topic_id;
                        assert(rows[k].id == id);
                    } else {
                        assert(rows[n as int].id == id);
                    }
                }
                if exists|k: int|
                    0 <= k < n + 1 && (#[trigger] rows[k]).id == id && rows[k].topic_id == topic_id {
                    let k = choose|k: int|
                        0 <= k < n + 1 && (#[trigger] rows[k]).id == id && rows[k].topic_id
                            == topic_id;
                    if k < n {
                        assert(before.contains(id));
                    }
                }
            }
            n += 1;
        }
        proof {
            let all = topic_posts(self@.posts, topic_id as int);
            assert forall|id: int| seen.contains(id) <==> all.contains(id) by {
                if seen.contains(id) {
                    let k = choose|k: int|
                        0 <= k < n && (#[trigger] rows[k]).id == id && rows[k].topic_id == topic_id;
                    table::lemma_row_at(rows, k);
                }
                if all.contains(id) {
                    assert(table::has_row(rows, id));
                    let k = table::row_place(rows, id);
                    table::lemma_row_at(rows, k);
                    assert(rows[k].id == id);
                }
            }
            assert(seen =~= all);
        }
        count
    }
}

proof fn lemma_thread(posts: Map<int, PostView>, topic_id: int, ids: Seq<int>)
    requires
        lists(posts, topic_id, ids),
    ensures
        lists(posts, topic_id, thread(posts, topic_id)),
        thread(posts, topic_id) == ids,
{
    law_thread_order_is_unique(posts, topic_id, thread(posts, topic_id), ids);
}

/// There is one order in which the posts of a topic are listed.
pub proof fn law_thread_order_is_unique(
    posts: Map<int, PostView>,
    topic_id: int,
    a: Seq<int>,
    b: Seq<int>,
)
    requires
        lists(posts, topic_id, a),
        lists(posts, topic_id, b),
    ensures
        a == b,
{
    assert forall|id: int| a.contains(id) == b.contains(id) by {}
    lemma_same_order(posts, a, b);
}

proof fn lemma_same_order(posts: Map<int, PostView>, a: Seq<int>, b: Seq<int>)
    requires
        forall|i: int, j: int|
            0 <= i < j < a.len() ==> earlier(posts, #[trigger] a[i], #[trigger] a[j]),
        forall|i: int, j: int|
            0 <= i < j < b.len() ==> earlier(posts, #[trigger] b[i], #[trigger] b[j]),
        forall|id: int| #[trigger] a.contains(id) == b.contains(id),
    ensures
        a == b,
    decreases a.len(),
{
    if a.len() == 0 {
        if b.len() > 0 {
            assert(b.contains(b[0]));
            assert(a.contains(b[0]));
        }
        assert(a =~= b);
    } else {
        let x = a.last();
        assert(a.contains(x));
        assert(b.contains(x));
        let j = choose|j: int| 0 <= j < b.len() && b[j] == x;
        let y = b.last();
        assert(b.contains(y));
        assert(a.contains(y));
        let i = choose|i: int| 0 <= i < a.len() && a[i] == y;
        if i < a.len() - 1 && j < b.len() - 1 {
            assert(earlier(posts, a[i], a[a.len() - 1]));
            assert(earlier(posts, b[j], b[b.len() - 1]));
        }
        assert(x == y);
        let c = a.drop_last();
        let d = b.drop_last();
        assert forall|id: int| #[trigger] c.contains(id) == d.contains(id) by {
            if c.contains(id) {
                let k = choose|k: int| 0 <= k < c.len() && c[k] == id;
                assert(a[k] == id);
                assert(earlier(posts, a[k], a[a.len() - 1]));
                assert(a.contains(id));
                assert(b.contains(id));
                let m = choose|m: int| 0 <= m < b.len() && b[m] == id;
                assert(d[m] == id);
            }
            if d.contains(id) {
                let k = choose|k: int| 0 <= k < d.len() && d[k] == id;
                assert(b[k] == id);
                assert(earlier(posts, b[k], b[b.len() - 1]));
                assert(b.contains(id));
                assert(a.contains(id));
                let m = choose|m: int| 0 <= m < a.len() && a[m] == id;
                assert(c[m] == id);
            }
        }
        lemma_same_order(posts, c, d);
        assert(a =~= c.push(x));
        assert(b =~= d.push(y));
    }
}

// --- topics ---------------------------------------------------------------------------

/// The first of two optional values that is there.
pub open spec fn first_of<A>(a: Option<A>, b: Option<A>) -> Option<A> {
    match a {
        Some(_) => a,
        None => b,
    }
}

/// A topic once something more is known of it: what is not said stays as it was, and the
/// page that was read never moves back.
pub open spec fn merged_topic(
    old: Option<TopicView>,
    title: Option<Seq<char>>,
    posts_count: Option<int>,
    last_page: int,
    cursor: Option<Seq<char>>,
    now: Seq<char>,
) -> TopicView {
    match old {
        None => TopicView { title, posts_count, last_page, cursor, synced_at: Some(now) },
        Some(t) => TopicView {
            title: first_of(title, t.title),
            posts_count: first_of(posts_count, t.posts_count),
            last_page: if last_page >= t.last_page {
                last_page
            } else {
                t.last_page
            },
            cursor: first_of(cursor, t.cursor),
            synced_at: Some(now),
        },
    }
}

/// The topic with the number.
pub open spec fn topic_at(topics: Map<int, TopicView>, topic_id: int) -> Option<TopicView> {
    if topics.contains_key(topic_id) {
        Some(topics[topic_id])
    } else {
        None
    }
}

/// The first of two optional texts that is there.
fn first_text(a: Option<&str>, b: &Option<String>) -> (r: Option<String>)
    ensures
        text::seen_string(r) == first_of(text::seen_text(a), text::seen_string(*b)),
{
    match a {
        Some(s) => Some(s.to_owned()),
        None => b.clone(),
    }
}

impl Cache {
    /// The highest page of a topic that was read; zero where none was.
    pub fn last_page(&self, topic_id: i64) -> (r: u32)
        requires
            self.wf(),
        ensures
            r == (match topic_at(self@.topics, topic_id as int) {
                Some(t) => t.last_page,
                None => 0,
            }),
    {
        match self.topics.get(topic_id) {
            Some(t) => t.last_page,
            None => 0,
        }
    }

    /// The title of a topic.
    pub fn topic_title(&self, topic_id: i64) -> (r: Option<String>)
        requires
            self.wf(),
        ensures
            text::seen_string(r) == (match topic_at(self@.topics, topic_id as int) {
                Some(t) => t.title,
                None => None,
            }),
    {
        match self.topics.get(topic_id) {
            Some(t) => t.title.clone(),
            None => None,
        }
    }

    /// Where reading a topic goes on.
    pub fn topic_cursor(&self, topic_id: i64) -> (r: Option<String>)
        requires
            self.wf(),
        ensures
            text::seen_string(r) == (match topic_at(self@.topics, topic_id as int) {
                Some(t) => t.cursor,
                None => None,
            }),
    {
        match self.topics.get(topic_id) {
            Some(t) => t.cursor.clone(),
            None => None,
        }
    }

    /// Notes what is known of a topic and up to which page it was read.
    pub fn set_topic_meta(
        &mut self,
        topic_id: i64,
        title: Option<&str>,
        posts_count: Option<i64>,
        last_page: u32,
        now: &str,
    )
        requires
            old(self).wf(),
        ensures
            final(self).wf(),
            final(self)@.posts == old(self)@.posts,
            final(self)@.topics == old(self)@.topics.insert(
                topic_id as int,
                merged_topic(
                    topic_at(old(self)@.topics, topic_id as int),
                    text::seen_text(title),
                    json::seen_int(posts_count),
                    last_page as int,
                    None,
                    now@,
                ),
            ),
    {
        self.merge_topic(topic_id, title, posts_count, last_page, None, now);
    }

    /// Notes what is known of a topic and where reading it goes on.
    pub fn set_topic_cursor(
        &mut self,
        topic_id: i64,
        title: Option<&str>,
        posts_count: Option<i64>,
        cursor: Option<&str>,
        now: &str,
    )
        requires
            old(self).wf(),
        ensures
            final(self).wf(),
            final(self)@.posts == old(self)@.posts,
            final(self)@.topics == old(self)@.topics.insert(
                topic_id as int,
                merged_topic(
                    topic_at(old(self)@.topics, topic_id as int),
                    text::seen_text(title),
                    json::seen_int(posts_count),
                    0,
                    text::seen_text(cursor),
                    now@,
                ),
            ),
    {
        self.merge_topic(topic_id, title, posts_count, 0, cursor, now);
    }

    fn merge_topic(
        &mut self,
        topic_id: i64,
        title: Option<&str>,
        posts_count: Option<i64>,
        last_page: u32,
        cursor: Option<&str>,
        now: &str,
    )
        requires
            old(self).wf(),
        ensures
            final(self).wf(),
            final(self)@.posts == old(self)@.posts,
            final(self)@.topics == old(self)@.topics.insert(
                topic_id as int,
                merged_topic(
                    topic_at(old(self)@.topics, topic_id as int),
                    text::seen_text(title),
                    json::seen_int(posts_count),
                    last_page as int,
                    text::seen_text(cursor),
                    now@,
                ),
            ),
    {
        let row = match self.topics.get(topic_id) {
            None => TopicRow {
                id: topic_id,
                title: owned(title),
                posts_count,
                last_page,
                cursor: owned(cursor),
                synced_at: Some(now.to_owned()),
            },
            Some(t) => TopicRow {
                id: topic_id,
                title: first_text(title, &t.title),
                posts_count: match posts_count {
                    Some(n) => Some(n),
                    None => t.posts_count,
                },
                last_page: if last_page >= t.last_page {
                    last_page
                } else {
                    t.last_page
                },
                cursor: first_text(cursor, &t.cursor),
                synced_at: Some(now.to_owned()),
            },
        };
        self.topics.put(row);
    }
}

// --- the inventory ----------------------------------------------------------------------

/// A topic in the inventory.
#[derive(Debug)]
pub struct CachedTopic {
    pub id: i64,
    pub title: Option<String>,
    /// How many of its posts are in the cache.
    pub posts: usize,
    pub synced_at: Option<String>,
}

/// Whether `ids` are the topics, each once and from the lowest number up.
pub open spec fn numbers_topics(topics: Map<int, TopicView>, ids: Seq<int>) -> bool {
    &&& forall|i: int, j: int| 0 <= i < j < ids.len() ==> #[trigger] ids[i] < #[trigger] ids[j]
    &&& forall|id: int| #[trigger] ids.contains(id) <==> topics.contains_key(id)
}

/// Whether an entry of the inventory says what the cache holds of the topic `id`.
pub open spec fn describes(t: CachedTopic, id: int, cache: CacheView) -> bool {
    &&& t.id == id
    &&& text::seen_string(t.title) == cache.topics[id].title
    &&& t.posts == topic_posts(cache.posts, id).len()
    &&& text::seen_string(t.synced_at) == cache.topics[id].synced_at
}

/// The numbers as integers.
pub open spec fn as_ints(ids: Seq<i64>) -> Seq<int> {
    ids.map_values(|n: i64| n as int)
}

/// Puts a number where it belongs among numbers that are in order already.
fn insert_number(ids: &mut Vec<i64>, n: i64)
    requires
        forall|i: int, j: int|
            0 <= i < j < old(ids)@.len() ==> #[trigger] old(ids)@[i] < #[trigger] old(ids)@[j],
        !old(ids)@.contains(n),
    ensures
        forall|i: int, j: int|
            0 <= i < j < final(ids)@.len() ==> #[trigger] final(ids)@[i] < #[trigger] final(ids)@[j],
        forall|k: i64| #[trigger] final(ids)@.contains(k) <==> k == n || old(ids)@.contains(k),
{
    let ghost before = ids@;
    let mut at: usize = ids.len();
    while at > 0 && ids[at - 1] > n
        invariant
            at <= ids@.len(),
            ids@ == before,
            forall|i: int| at <= i < before.len() ==> n < #[trigger] before[i],
        decreases at,
    {
        at = at - 1;
    }
    ids.insert(at, n);
    proof {
        let after = ids@;
        assert(after == before.insert(at as int, n));
        assert(at > 0 ==> before[at - 1] != n) by {
            if at > 0 && before[at - 1] == n {
                assert(before.contains(n));
            }
        }
        assert forall|i: int, j: int| 0 <= i < j < after.len() implies #[trigger] after[i]
            < #[trigger] after[j] by {
            if i < at - 1 && j == at {
                assert(before[i] < before[at - 1]);
            }
        }
        assert forall|k: i64| #[trigger] after.contains(k) <==> k == n || before.contains(k) by {
            if after.contains(k) && k != n {
                let i = choose|i: int| 0 <= i < after.len() && after[i] == k;
                if i < at {
                    assert(before[i] == k);
                } else {
                    assert(before[i - 1] == k);
                }
            }
            if before.contains(k) {
                let i = choose|i: int| 0 <= i < before.len() && before[i] == k;
                if i < at {
                    assert(after[i] == k);
                } else {
                    assert(after[i + 1] == k);
                }
            }
            assert(after[at as int] == n);
        }
    }
}

impl Cache {
    /// The topics, from the lowest number up.
    pub fn cached_topic_ids(&self) -> (r: Vec<i64>)
        requires
            self.wf(),
        ensures
            numbers_topics(self@.topics, as_ints(r@)),
    {
        let ghost rows = self.topics.rows();
        let mut ids: Vec<i64> = Vec::new();
        let mut n: usize = 0;
        while n < self.topics.len()
            invariant
                n <= rows.len(),
                rows == self.topics.rows(),
                self.topics.wf(),
                forall|i: int, j: int|
                    0 <= i < j < ids@.len() ==> #[trigger] ids@[i] < #[trigger] ids@[j],
                forall|k: i64| #[trigger]
                    ids@.contains(k) <==> exists|m: int| 0 <= m < n && (#[trigger] rows[m]).id == k,
            decreases rows.len() - n,
        {
            let ghost before = ids@;
            let id = self.topics.row(n).id;
            proof {
                if ids@.contains(id) {
                    let m = choose|m: int| 0 <= m < n && (#[trigger] rows[m]).id == id;
                    assert(rows[m].key() != rows[n as int].key());
                }
            }
            insert_number(&mut ids, id);
            assert forall|k: i64| #[trigger] ids@.contains(k) <==> exists|m: int|
                0 <= m < n + 1 && (#[trigger] rows[m]).id == k by {
                if ids@.contains(k) {
                    if k == id {
                        assert(rows[n as int].id == k);
                    } else {
                        let m = choose|m: int| 0 <= m < n && (#[trigger] rows[m]).id == k;
                        assert(rows[m].id == k);
                    }
                }
                if exists|m: int| 0 <= m < n + 1 && (#[trigger] rows[m]).id == k {
                    let m = choose|m: int| 0 <= m < n + 1 && (#[trigger] rows[m]).id == k;
                    if m < n {
                        assert(before.contains(k));
                    }
                }
            }
            n += 1;
        }
        proof {
            let all = as_ints(ids@);
            assert forall|id: int| #[trigger] all.contains(id) <==> self@.topics.contains_key(id) by {
                if all.contains(id) {
                    let i = choose|i: int| 0 <= i < all.len() && all[i] == id;
                    assert(ids@.contains(ids@[i]));
                    let m = choose|m: int| 0 <= m < n && (#[trigger] rows[m]).id == ids@[i];
                    table::lemma_row_at(rows, m);
                }
                if self@.topics.contains_key(id) {
                    assert(table::has_row(rows, id));
                    let m = table::row_place(rows, id);
                    assert(rows[m].id == id);
                    assert(ids@.contains(id as i64));
                    let i = choose|i: int| 0 <= i < ids@.len() && ids@[i] == id as i64;
                    assert(all[i] == id);
                }
            }
        }
        ids
    }

    /// The inventory, from the lowest number up.
    pub fn list_cached(&self) -> (r: Vec<CachedTopic>)
        requires
            self.wf(),
        ensures
            numbers_topics(self@.topics, r@.map_values(|t: CachedTopic| t.id as int)),
            forall|i: int|
                0 <= i < r@.len() ==> describes(#[trigger] r@[i], r@[i].id as int, self@),
    {
        let ids = self.cached_topic_ids();
        let mut out: Vec<CachedTopic> = Vec::new();
        let mut i: usize = 0;
        while i < ids.len()
            invariant
                i <= ids@.len(),
                self.wf(),
                numbers_topics(self@.topics, as_ints(ids@)),
                out@.len() == i,
                forall|j: int| 0 <= j < i ==> (#[trigger] out@[j]).id == ids@[j],
                forall|j: int|
                    0 <= j < i ==> describes(#[trigger] out@[j], out@[j].id as int, self@),
            decreases ids@.len() - i,
        {
            let id = ids[i];
            assert(as_ints(ids@)[i as int] == id);
            assert(as_ints(ids@).contains(id as int));
            let posts = self.post_count(id);
            match self.topics.get(id) {
                Some(t) => out.push(
                    CachedTopic {
                        id,
                        title: t.title.clone(),
                        posts,
                        synced_at: t.synced_at.clone(),
                    },
                ),
                None => {},
            }
            i += 1;
        }
        assert(out@.map_values(|t: CachedTopic| t.id as int) =~= as_ints(ids@));
        out
    }

    // --- clearing and loading ---------------------------------------------------------

    /// Drops a topic and its posts.
    pub fn clear_topic(&mut self, topic_id: i64)
        requires
            old(self).wf(),
        ensures
            final(self).wf(),
            final(self)@.topics == old(self)@.topics.remove(topic_id as int),
            final(self)@.posts == without_topic(old(self)@.posts, topic_id as int),
    {
        let mut posts: Table<PostRow> = Table::new();
        let mut topics: Table<TopicRow> = Table::new();
        std::mem::swap(&mut posts, &mut self.posts);
        std::mem::swap(&mut topics, &mut self.topics);
        self.keep_posts(posts, topic_id);
        self.keep_topics(topics, topic_id);
    }

    fn keep_posts(&mut self, posts: Table<PostRow>, topic_id: i64)
        requires
            old(self).wf(),
            old(self)@.posts == Map::<int, PostView>::empty(),
            posts.wf(),
        ensures
            final(self).wf(),
            final(self)@.topics == old(self)@.topics,
            final(self)@.posts == without_topic(posts@, topic_id as int),
    {
        let ghost rows = posts.rows();
        let ghost all = posts@;
        for row in it: posts.into_rows()
            invariant
                it.seq() == rows,
                all == table::rows_map(rows),
                table::distinct(rows),
                self.wf(),
                self.topics == old(self).topics,
                forall|id: int| #[trigger]
                    self.posts@.contains_key(id) <==> exists|k: int|
                        0 <= k < it.index() && (#[trigger] rows[k]).id == id && rows[k].topic_id
                            != topic_id,
                forall|id: int|
                    self.posts@.contains_key(id) ==> #[trigger] self.posts@[id] == all[id],
        {
            let ghost n = it.index() as int;
            let ghost before = self.posts@;
            proof {
                table::lemma_row_at(rows, n);
            }
            if row.topic_id != topic_id {
                self.posts.put(row);
            }
            assert forall|id: int| #[trigger] self.posts@.contains_key(id) <==> exists|k: int|
                0 <= k < n + 1 && (#[trigger] rows[k]).id == id && rows[k].topic_id != topic_id by {
                if self.posts@.contains_key(id) {
                    if before.contains_key(id) {
                        let k = choose|k: int|
                            0 <= k < n && (#[trigger] rows[k]).id == id && rows[k].topic_id
                                != topic_id;
                        assert(rows[k].id == id);
                    } else {
                        assert(rows[n].id == id);
                    }
                }
                if exists|k: int|
                    0 <= k < n + 1 && (#[trigger] rows[k]).id == id && rows[k].topic_id != topic_id {
                    let k = choose|k: int|
                        0 <= k < n + 1 && (#[trigger] rows[k]).id == id && rows[k].topic_id
                            != topic_id;
                    if k < n {
                        assert(before.contains_key(id));
                    }
                }
            }
        }
        proof {
            let kept = without_topic(all, topic_id as int);
            assert forall|id: int| self.posts@.contains_key(id) == kept.contains_key(id) by {
                if self.posts@.contains_key(id) {
                    let k = choose|k: int|
                        0 <= k < rows.len() && (#[trigger] rows[k]).id == id && rows[k].topic_id
                            != topic_id;
                    table::lemma_row_at(rows, k);
                }
                if kept.contains_key(id) {
                    assert(table::has_row(rows, id));
                    let k = table::row_place(rows, id);
                    table::lemma_row_at(rows, k);
                    assert(rows[k].id == id);
                }
            }
            assert(self.posts@ =~= kept);
        }
    }

    fn keep_topics(&mut self, topics: Table<TopicRow>, topic_id: i64)
        requires
            old(self).wf(),
            old(self)@.topics == Map::<int, TopicView>::empty(),
            topics.wf(),
        ensures
            final(self).wf(),
            final(self)@.posts == old(self)@.posts,
            final(self)@.topics == topics@.remove(topic_id as int),
    {
        let ghost rows = topics.rows();
        let ghost all = topics@;
        for row in it: topics.into_rows()
            invariant
                it.seq() == rows,
                all == table::rows_map(rows),
                table::distinct(rows),
                self.wf(),
                self.posts == old(self).posts,
                forall|id: int| #[trigger]
                    self.topics@.contains_key(id) <==> exists|k: int|
                        0 <= k < it.index() && (#[trigger] rows[k]).id == id && id != topic_id,
                forall|id: int|
                    self.topics@.contains_key(id) ==> #[trigger] self.topics@[id] == all[id],
        {
            let ghost n = it.index() as int;
            let ghost before = self.topics@;
            proof {
                table::lemma_row_at(rows, n);
            }
            if row.id != topic_id {
                self.topics.put(row);
            }
            assert forall|id: int| #[trigger] self.topics@.contains_key(id) <==> exists|k: int|
                0 <= k < n + 1 && (#[trigger] rows[k]).id == id && id != topic_id by {
                if self.topics@.contains_key(id) {
                    if before.contains_key(id) {
                        let k = choose|k: int|
                            0 <= k < n && (#[trigger] rows[k]).id == id && id != topic_id;
                        assert(rows[k].id == id);
                    } else {
                        assert(rows[n].id == id);
                    }
                }
                if exists|k: int| 0 <= k < n + 1 && (#[trigger] rows[k]).id == id && id != topic_id {
                    let k = choose|k: int|
                        0 <= k < n + 1 && (#[trigger] rows[k]).id == id && id != topic_id;
                    if k < n {
                        assert(before.contains_key(id));
                    }
                }
            }
        }
        proof {
            let kept = all.remove(topic_id as int);
            assert forall|id: int| self.topics@.contains_key(id) == kept.contains_key(id) by {
                if self.topics@.contains_key(id) {
                    let k = choose|k: int|
                        0 <= k < rows.len() && (#[trigger] rows[k]).id == id && id != topic_id;
                    table::lemma_row_at(rows, k);
                }
                if kept.contains_key(id) {
                    assert(table::has_row(rows, id));
                    let k = table::row_place(rows, id);
                    assert(rows[k].id == id);
                }
            }
            assert(self.topics@ =~= kept);
        }
    }

    /// Drops everything.
    pub fn clear_all(&mut self)
        ensures
            final(self).wf(),
            final(self)@.posts == Map::<int, PostView>::empty(),
            final(self)@.topics == Map::<int, TopicView>::empty(),
    {
        self.posts = Table::new();
        self.topics = Table::new();
    }

    /// Takes in a post as it was kept.
    pub fn load_post(&mut self, row: PostRow)
        requires
            old(self).wf(),
        ensures
            final(self).wf(),
            final(self)@.posts == old(self)@.posts.insert(row.id as int, row@),
            final(self)@.topics == old(self)@.topics,
    {
        self.posts.put(row);
    }

    /// Takes in a topic as it was kept.
    pub fn load_topic(&mut self, row: TopicRow)
        requires
            old(self).wf(),
        ensures
            final(self).wf(),
            final(self)@.posts == old(self)@.posts,
            final(self)@.topics == old(self)@.topics.insert(row.id as int, row@),
    {
        self.topics.put(row);
    }

    /// The row of a post, to be kept.
    pub fn post_row(&self, id: i64) -> (r: Option<&PostRow>)
        requires
            self.wf(),
        ensures
            match r {
                Some(row) => row.id == id && self@.posts.contains_key(id as int)
                    && self@.posts[id as int] == row@,
                None => !self@.posts.contains_key(id as int),
            },
    {
        self.posts.get(id)
    }

    /// The row of a topic, to be kept.
    pub fn topic_row(&self, id: i64) -> (r: Option<&TopicRow>)
        requires
            self.wf(),
        ensures
            match r {
                Some(row) => row.id == id && self@.topics.contains_key(id as int)
                    && self@.topics[id as int] == row@,
                None => !self@.topics.contains_key(id as int),
            },
    {
        self.topics.get(id)
    }
}

/// The posts that are not of the topic.
pub open spec fn without_topic(posts: Map<int, PostView>, topic_id: int) -> Map<int, PostView> {
    Map::new(
        |id: int| posts.contains_key(id) && posts[id].topic_id != topic_id,
        |id: int| posts[id],
    )
}

// --- laws -------------------------------------------------------------------------------

/// What a batch makes of a post: the last of the batch with its number decides, and the
/// post stays with the topic that it had.
pub open spec fn outcome(
    posts: Map<int, PostView>,
    topic_id: int,
    batch: Seq<JsonView>,
    now: Seq<char>,
    id: int,
) -> Option<PostView> {
    let topic = if posts.contains_key(id) {
        posts[id].topic_id
    } else {
        topic_id
    };
    match last_with(batch, id) {
        Some(p) => Some(post_of(p, topic, now)),
        None => if posts.contains_key(id) {
            Some(posts[id])
        } else {
            None
        },
    }
}

/// Putting a batch in does for each post what its last version in the batch says, and
/// nothing else.
pub proof fn law_last_version_decides(
    posts: Map<int, PostView>,
    topic_id: int,
    batch: Seq<JsonView>,
    now: Seq<char>,
    id: int,
)
    ensures
        match outcome(posts, topic_id, batch, now, id) {
            Some(p) => with_posts(posts, topic_id, batch, now).contains_key(id) && with_posts(
                posts,
                topic_id,
                batch,
                now,
            )[id] == p,
            None => !with_posts(posts, topic_id, batch, now).contains_key(id),
        },
    decreases batch.len(),
{
    if batch.len() > 0 {
        law_last_version_decides(posts, topic_id, batch.drop_last(), now, id);
    }
}

/// Putting the same batch in once more changes nothing.
pub proof fn law_upsert_is_idempotent(
    posts: Map<int, PostView>,
    topic_id: int,
    batch: Seq<JsonView>,
    now: Seq<char>,
)
    ensures
        with_posts(with_posts(posts, topic_id, batch, now), topic_id, batch, now) == with_posts(
            posts,
            topic_id,
            batch,
            now,
        ),
{
    let once = with_posts(posts, topic_id, batch, now);
    let twice = with_posts(once, topic_id, batch, now);
    assert forall|id: int| #[trigger] twice.dom().contains(id) == once.dom().contains(id) by {
        law_last_version_decides(posts, topic_id, batch, now, id);
        law_last_version_decides(once, topic_id, batch, now, id);
    }
    assert forall|id: int| once.dom().contains(id) implies #[trigger] twice[id] == once[id] by {
        law_last_version_decides(posts, topic_id, batch, now, id);
        law_last_version_decides(once, topic_id, batch, now, id);
    }
    assert(twice =~= once);
}

/// Putting the same batch in once more, at whatever time, changes nothing that can be read: each
/// topic has the same posts, in the same order (whatever `ids` list them), and each is shown as
/// it was.
pub proof fn law_upsert_again_shows_the_same(
    posts: Map<int, PostView>,
    topic_id: int,
    batch: Seq<JsonView>,
    now: Seq<char>,
    later: Seq<char>,
    topic: int,
    ids: Seq<int>,
)
    ensures
        ({
            let once = with_posts(posts, topic_id, batch, now);
            let twice = with_posts(once, topic_id, batch, later);
            &&& topic_posts(twice, topic) == topic_posts(once, topic)
            &&& lists(once, topic, ids) ==> {
                &&& lists(twice, topic, ids)
                &&& thread(once, topic) == ids
                &&& thread(twice, topic) == ids
                &&& shown_posts(twice, ids) == shown_posts(once, ids)
            }
        }),
{
    let once = with_posts(posts, topic_id, batch, now);
    let twice = with_posts(once, topic_id, batch, later);
    assert forall|id: int|
        #![trigger twice.contains_key(id)]
        #![trigger once.contains_key(id)]
        twice.contains_key(id) == once.contains_key(id) && (once.contains_key(id) ==> twice[id]
            == (PostView { fetched_at: twice[id].fetched_at, ..once[id] })) by {
        law_last_version_decides(posts, topic_id, batch, now, id);
        law_last_version_decides(once, topic_id, batch, later, id);
    }
    assert(topic_posts(twice, topic) =~= topic_posts(once, topic));
    assert forall|id: int| #[trigger] in_topic(twice, topic, id) == in_topic(once, topic, id) by {
        assert(twice.contains_key(id) == once.contains_key(id));
    }
    if lists(once, topic, ids) {
        assert forall|i: int, j: int| 0 <= i < j < ids.len() implies earlier(
            twice,
            #[trigger] ids[i],
            #[trigger] ids[j],
        ) by {
            assert(ids.contains(ids[i]) && ids.contains(ids[j]));
            assert(in_topic(once, topic, ids[i]) && in_topic(once, topic, ids[j]));
            assert(once.contains_key(ids[i]) && once.contains_key(ids[j]));
            assert(earlier(once, ids[i], ids[j]));
        }
        assert(lists(twice, topic, ids));
        lemma_thread(once, topic, ids);
        lemma_thread(twice, topic, ids);
        assert forall|i: int| 0 <= i < ids.len() implies shown_post(ids[i], twice[ids[i]])
            == shown_post(#[trigger] ids[i], once[ids[i]]) by {
            assert(ids.contains(ids[i]));
            assert(in_topic(once, topic, ids[i]));
            assert(once.contains_key(ids[i]));
        }
        assert(shown_posts(twice, ids) =~= shown_posts(once, ids));
    }
}

/// A post that is in the cache stays in it, and stays with its topic, whatever is put in.
pub proof fn law_upsert_loses_nothing(
    posts: Map<int, PostView>,
    topic_id: int,
    batch: Seq<JsonView>,
    now: Seq<char>,
    id: int,
)
    requires
        posts.contains_key(id),
    ensures
        with_posts(posts, topic_id, batch, now).contains_key(id),
        with_posts(posts, topic_id, batch, now)[id].topic_id == posts[id].topic_id,
        last_with(batch, id) is None ==> with_posts(posts, topic_id, batch, now)[id] == posts[id],
{
    law_last_version_decides(posts, topic_id, batch, now, id);
}

/// A post of a batch that is new, or of that topic already, is listed in the thread of the
/// topic from then on, as the last version of it in the batch says.
pub proof fn law_written_post_is_listed(
    posts: Map<int, PostView>,
    topic_id: int,
    batch: Seq<JsonView>,
    now: Seq<char>,
    id: int,
    ids: Seq<int>,
)
    requires
        last_with(batch, id) is Some,
        posts.contains_key(id) ==> posts[id].topic_id == topic_id,
        lists(with_posts(posts, topic_id, batch, now), topic_id, ids),
    ensures
        ids.contains(id),
        with_posts(posts, topic_id, batch, now)[id] == post_of(
            last_with(batch, id)->0,
            topic_id,
            now,
        ),
{
    law_last_version_decides(posts, topic_id, batch, now, id);
    assert(in_topic(with_posts(posts, topic_id, batch, now), topic_id, id));
}

/// No topic has fewer posts after a batch was put in.
pub proof fn law_upsert_never_shrinks_a_topic(
    posts: Map<int, PostView>,
    topic_id: int,
    batch: Seq<JsonView>,
    now: Seq<char>,
    topic: int,
)
    requires
        posts.dom().finite(),
    ensures
        with_posts(posts, topic_id, batch, now).dom().finite(),
        topic_posts(posts, topic).len() <= topic_posts(
            with_posts(posts, topic_id, batch, now),
            topic,
        ).len(),
    decreases batch.len(),
{
    let after = with_posts(posts, topic_id, batch, now);
    lemma_finite(posts, topic_id, batch, now);
    assert(topic_posts(posts, topic).subset_of(topic_posts(after, topic))) by {
        assert forall|id: int| topic_posts(posts, topic).contains(id) implies topic_posts(
            after,
            topic,
        ).contains(id) by {
            law_upsert_loses_nothing(posts, topic_id, batch, now, id);
        }
    }
    vstd::set_lib::lemma_len_subset(topic_posts(posts, topic), topic_posts(after, topic));
}

proof fn lemma_finite(
    posts: Map<int, PostView>,
    topic_id: int,
    batch: Seq<JsonView>,
    now: Seq<char>,
)
    requires
        posts.dom().finite(),
    ensures
        with_posts(posts, topic_id, batch, now).dom().finite(),
    decreases batch.len(),
{
    if batch.len() > 0 {
        lemma_finite(posts, topic_id, batch.drop_last(), now);
    }
}

/// Topics do not mix: putting posts of one topic in leaves the thread of another as it is,
/// as long as none of that one's posts is among them.
pub proof fn law_topics_do_not_mix(
    posts: Map<int, PostView>,
    topic_id: int,
    batch: Seq<JsonView>,
    now: Seq<char>,
    other: int,
    ids: Seq<int>,
)
    requires
        topic_id != other,
        lists(posts, other, ids),
        forall|id: int| #[trigger] in_topic(posts, other, id) ==> last_with(batch, id) is None,
    ensures
        lists(with_posts(posts, topic_id, batch, now), other, ids),
        shown_posts(with_posts(posts, topic_id, batch, now), ids) == shown_posts(posts, ids),
{
    let after = with_posts(posts, topic_id, batch, now);
    assert forall|id: int| in_topic(after, other, id) == in_topic(posts, other, id) && (in_topic(
        posts,
        other,
        id,
    ) ==> after[id] == posts[id]) by {
        law_last_version_decides(posts, topic_id, batch, now, id);
    }
    assert forall|i: int| 0 <= i < ids.len() implies after[#[trigger] ids[i]] == posts[ids[i]] by {
        assert(ids.contains(ids[i]));
        assert(in_topic(posts, other, ids[i]));
    }
    assert(shown_posts(after, ids) =~= shown_posts(posts, ids));
}

/// The page up to which a topic was read never moves back, and what is not said anew
/// stays.
pub proof fn law_topic_knowledge_only_grows(
    old: TopicView,
    title: Option<Seq<char>>,
    posts_count: Option<int>,
    last_page: int,
    cursor: Option<Seq<char>>,
    now: Seq<char>,
)
    ensures
        ({
            let new = merged_topic(Some(old), title, posts_count, last_page, cursor, now);
            &&& new.last_page >= old.last_page && new.last_page >= last_page
            &&& old.title is Some ==> new.title is Some
            &&& old.posts_count is Some ==> new.posts_count is Some
            &&& old.cursor is Some ==> new.cursor is Some
            &&& title is None ==> new.title == old.title
            &&& cursor is None ==> new.cursor == old.cursor
        }),
{
}

/// A topic that is cleared is gone, and no other is touched.
pub proof fn law_clearing_takes_one_topic(posts: Map<int, PostView>, topic_id: int, id: int)
    ensures
        !in_topic(without_topic(posts, topic_id), topic_id, id),
        posts.contains_key(id) && posts[id].topic_id != topic_id ==> without_topic(
            posts,
            topic_id,
        ).contains_key(id) && without_topic(posts, topic_id)[id] == posts[id],
{
}

/// Two batches, one after the other, do what one batch of both does.
pub proof fn law_batches_add_up(
    posts: Map<int, PostView>,
    topic_id: int,
    a: Seq<JsonView>,
    b: Seq<JsonView>,
    now: Seq<char>,
)
    ensures
        with_posts(with_posts(posts, topic_id, a, now), topic_id, b, now) == with_posts(
            posts,
            topic_id,
            a + b,
            now,
        ),
        numbered(a + b) == numbered(a) + numbered(b),
    decreases b.len(),
{
    if b.len() == 0 {
        assert(a + b == a);
    } else {
        law_batches_add_up(posts, topic_id, a, b.drop_last(), now);
        assert((a + b).drop_last() == a + b.drop_last());
        assert((a + b).last() == b.last());
    }
}

proof fn lemma_last_with(batch: Seq<JsonView>, id: int)
    ensures
        match last_with(batch, id) {
            Some(p) => exists|i: int|
                0 <= i < batch.len() && #[trigger] batch[i] == p && p.int_field("id"@) == Some(id)
                    && (forall|j: int|
                    i < j < batch.len() ==> (#[trigger] batch[j]).int_field("id"@) != Some(id)),
            None => forall|j: int|
                0 <= j < batch.len() ==> (#[trigger] batch[j]).int_field("id"@) != Some(id),
        },
    decreases batch.len(),
{
    if batch.len() > 0 {
        let before = batch.drop_last();
        if batch.last().int_field("id"@) == Some(id) {
            assert(batch[batch.len() - 1] == batch.last());
        } else {
            lemma_last_with(before, id);
            if let Some(p) = last_with(before, id) {
                let i = choose|i: int|
                    0 <= i < before.len() && #[trigger] before[i] == p && p.int_field("id"@)
                        == Some(id) && (forall|j: int|
                        i < j < before.len() ==> (#[trigger] before[j]).int_field("id"@) != Some(
                            id,
                        ));
                assert(batch[i] == p);
                assert forall|j: int| i < j < batch.len() implies (#[trigger] batch[j]).int_field(
                    "id"@,
                ) != Some(id) by {
                    if j < before.len() {
                        assert(before[j] == batch[j]);
                    }
                }
            } else {
                assert forall|j: int| 0 <= j < batch.len() implies (#[trigger] batch[j]).int_field(
                    "id"@,
                ) != Some(id) by {
                    if j < before.len() {
                        assert(before[j] == batch[j]);
                    }
                }
            }
        }
    }
}

/// Every post of a batch that has a number is in the cache from then on; the last one with the
/// number is what the cache holds, column by column.
pub proof fn law_numbered_post_is_kept(
    posts: Map<int, PostView>,
    topic_id: int,
    batch: Seq<JsonView>,
    now: Seq<char>,
    k: int,
    id: int,
)
    requires
        0 <= k < batch.len(),
        batch[k].field("id"@) == Some(JsonView::Int(id)),
        i64::MIN <= id <= i64::MAX,
    ensures
        ({
            let after = with_posts(posts, topic_id, batch, now);
            let p = batch[k];
            let last = forall|j: int|
                k < j < batch.len() ==> (#[trigger] batch[j]).field("id"@) != Some(
                    JsonView::Int(id),
                );
            &&& after.contains_key(id)
            &&& after[id].topic_id == (if posts.contains_key(id) {
                posts[id].topic_id
            } else {
                topic_id
            })
            &&& after[id].fetched_at == Some(now)
            &&& last ==> {
                &&& after[id].raw == Some(json::text_of_json(p))
                &&& p.field("post_number"@) matches Some(JsonView::Int(n)) ==> i64::MIN <= n
                    <= i64::MAX ==> after[id].post_number == Some(n)
                &&& p.field("username"@) matches Some(JsonView::Str(s)) ==> after[id].username
                    == Some(s)
                &&& p.field("created_at"@) matches Some(JsonView::Str(s)) ==> after[id].created_at
                    == Some(s)
                &&& p.field("updated_at"@) matches Some(JsonView::Str(s)) ==> after[id].updated_at
                    == Some(s)
                &&& p.field("cooked"@) matches Some(JsonView::Str(s)) ==> after[id].cooked == Some(
                    s,
                )
                &&& p.field("text"@) matches Some(JsonView::Str(s)) ==> after[id].text == Some(s)
                &&& p.field("cooked"@) matches Some(JsonView::Str(s)) ==> !(p.field(
                    "text"@,
                ) is Some) ==> after[id].text == Some(forum::stripped(s))
                &&& p.field("created_at"@) is None ==> after[id].created_at is None
                &&& p.field("updated_at"@) is None ==> after[id].updated_at is None
                &&& p.field("cooked"@) is None ==> after[id].cooked is None
                &&& p.field("text"@) is None && p.field("cooked"@) is None ==> after[id].text is None
                &&& !(p.field("username"@) is Some) ==> after[id].username is None
                &&& !(p.field("post_number"@) is Some) ==> after[id].post_number is None
            }
        }),
{
    law_last_version_decides(posts, topic_id, batch, now, id);
    lemma_last_with(batch, id);
    assert(batch[k].int_field("id"@) == Some(id));
    if forall|j: int|
        k < j < batch.len() ==> (#[trigger] batch[j]).field("id"@) != Some(JsonView::Int(id)) {
        let i = choose|i: int|
            0 <= i < batch.len() && #[trigger] batch[i] == last_with(batch, id)->0
                && last_with(batch, id)->0.int_field("id"@) == Some(id) && (forall|j: int|
                i < j < batch.len() ==> (#[trigger] batch[j]).int_field("id"@) != Some(id));
        if i < k {
            assert(batch[k].int_field("id"@) != Some(id));
        }
        if i > k {
            assert(batch[i].field("id"@) != Some(JsonView::Int(id)));
        }
        assert(i == k);
    }
}

/// A post without a number changes nothing, and is not counted; one with a number is counted
/// once.
pub proof fn law_only_numbered_posts_count(
    posts: Map<int, PostView>,
    topic_id: int,
    p: JsonView,
    now: Seq<char>,
)
    ensures
        p.field("id"@) is None ==> with_posts(posts, topic_id, seq![p], now) == posts && numbered(
            seq![p],
        ) == 0,
        p.field("id"@) matches Some(JsonView::Int(id)) ==> i64::MIN <= id <= i64::MAX ==> numbered(
            seq![p],
        ) == 1,
{
    let none = seq![p].drop_last();
    assert(none == Seq::<JsonView>::empty());
    assert(seq![p].last() == p);
    assert(with_posts(posts, topic_id, none, now) == posts);
    assert(numbered(none) == 0);
}

/// The posts of a thread stand in the order of their numbers, those without a number first;
/// each post of the topic stands there, and no other.
pub proof fn law_thread_is_in_order(
    posts: Map<int, PostView>,
    topic_id: int,
    ids: Seq<int>,
    i: int,
    j: int,
)
    requires
        lists(posts, topic_id, ids),
        0 <= i < j < ids.len(),
    ensures
        posts.contains_key(ids[i]) && posts[ids[i]].topic_id == topic_id,
        match (posts[ids[i]].post_number, posts[ids[j]].post_number) {
            (Some(m), Some(n)) => m <= n,
            (Some(_), None) => false,
            _ => true,
        },
        posts[ids[i]].post_number == posts[ids[j]].post_number ==> ids[i] < ids[j],
        forall|id: int|
            posts.contains_key(id) && posts[id].topic_id == topic_id ==> #[trigger] ids.contains(id),
{
    assert(ids.contains(ids[i]));
    assert(in_topic(posts, topic_id, ids[i]));
    assert(earlier(posts, ids[i], ids[j]));
    assert forall|id: int|
        posts.contains_key(id) && posts[id].topic_id == topic_id implies #[trigger] ids.contains(
        id,
    ) by {
        assert(in_topic(posts, topic_id, id));
    }
}

/// A post whose JSON text is missing is shown as its columns hold it.
pub proof fn law_columns_stand_in_for_the_text(id: int, p: PostView)
    requires
        p.raw is None || json::json_of_text(p.raw->0) is Err,
    ensures
        ({
            let v = shown_post(id, p);
            &&& v.field("id"@) == Some(JsonView::Int(id))
            &&& p.post_number matches Some(n) ==> v.field("post_number"@) == Some(JsonView::Int(n))
            &&& p.username matches Some(s) ==> v.field("username"@) == Some(JsonView::Str(s))
            &&& p.created_at matches Some(s) ==> v.field("created_at"@) == Some(JsonView::Str(s))
            &&& p.updated_at matches Some(s) ==> v.field("updated_at"@) == Some(JsonView::Str(s))
            &&& p.cooked matches Some(s) ==> v.field("cooked"@) == Some(JsonView::Str(s))
        }),
{
    reveal_strlit("id");
    reveal_strlit("post_number");
    reveal_strlit("username");
    reveal_strlit("created_at");
    reveal_strlit("updated_at");
    reveal_strlit("cooked");
    assert("id"@.len() == 2 && "post_number"@.len() == 11 && "username"@.len() == 8);
    assert("created_at"@.len() == 10 && "updated_at"@.len() == 10 && "cooked"@.len() == 6);
    assert("created_at"@[0] == 'c' && "updated_at"@[0] == 'u');
}

/// What is said of a topic is what the cache holds of it from then on; what is not said stays.
pub proof fn law_what_is_said_is_stored(
    old: Option<TopicView>,
    title: Option<Seq<char>>,
    posts_count: Option<int>,
    last_page: int,
    cursor: Option<Seq<char>>,
    now: Seq<char>,
)
    ensures
        ({
            let new = merged_topic(old, title, posts_count, last_page, cursor, now);
            &&& title is Some ==> new.title == title
            &&& posts_count is Some ==> new.posts_count == posts_count
            &&& cursor is Some ==> new.cursor == cursor
            &&& new.synced_at == Some(now)
            &&& old is None ==> new.title == title && new.posts_count == posts_count && new.cursor
                == cursor && new.last_page == last_page
            &&& old matches Some(t) ==> {
                &&& title is None ==> new.title == t.title
                &&& posts_count is None ==> new.posts_count == t.posts_count
                &&& cursor is None ==> new.cursor == t.cursor
                &&& new.last_page == last_page || new.last_page == t.last_page
            }
        }),
{
}

/// The topics in the cache are numbered from the lowest up, each once, and none is left out.
pub proof fn law_topics_are_listed_in_order(
    topics: Map<int, TopicView>,
    ids: Seq<int>,
    i: int,
    j: int,
    id: int,
)
    requires
        numbers_topics(topics, ids),
        0 <= i < j < ids.len(),
    ensures
        ids[i] < ids[j],
        topics.contains_key(ids[i]) && topics.contains_key(ids[j]),
        topics.contains_key(id) ==> exists|k: int| 0 <= k < ids.len() && #[trigger] ids[k] == id,
{
    assert(ids.contains(ids[i]));
    assert(ids.contains(ids[j]));
    if topics.contains_key(id) {
        assert(ids.contains(id));
    }
}

/// What is said of a topic in the cache: its number and its title, when it was read, and as many
/// posts as the cache holds of it.
pub proof fn law_topic_is_described_as_it_is(t: CachedTopic, id: int, cache: CacheView, ids: Seq<int>)
    requires
        describes(t, id, cache),
        lists(cache.posts, id, ids),
    ensures
        t.id == id,
        t.title matches Some(s) ==> cache.topics[id].title == Some(s@),
        t.title is None ==> cache.topics[id].title is None,
        t.synced_at matches Some(s) ==> cache.topics[id].synced_at == Some(s@),
        t.synced_at is None ==> cache.topics[id].synced_at is None,
        t.posts == Set::new(
            |p: int| cache.posts.contains_key(p) && cache.posts[p].topic_id == id,
        ).len(),
{
    assert(topic_posts(cache.posts, id) =~= Set::new(
        |p: int| cache.posts.contains_key(p) && cache.posts[p].topic_id == id,
    ));
}

/// A post that JSON text keeps whole is shown as it was written.
pub proof fn law_post_reads_back(p: JsonView, shown: JsonView, columns: JsonView)
    requires
        reads_back(p, shown, columns),
        p.fits(127),
    ensures
        shown == p,
{
}

} // verus!
