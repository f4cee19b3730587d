//! What a tool call gave, as text for a person.
//!
//! Text goes through as it is. Pictures, sound and other resources become one line each,
//! so that no binary data reaches the terminal.

use vstd::prelude::*;

use crate::json;
use crate::json::{Json, JsonView};
use crate::text;

verus! {

/// How many bytes a text takes.
pub open spec fn byte_len(s: Seq<char>) -> nat {
    vstd::utf8::encode_utf8(s).len()
}

/// How many bytes the data of an item takes; none where it has no data.
pub open spec fn data_len(item: JsonView) -> nat {
    match item.text_field("data"@) {
        Some(d) => byte_len(d),
        None => 0,
    }
}

/// The line that stands for a picture or for sound.
pub open spec fn media_text(kind: Seq<char>, item: JsonView) -> Seq<char> {
    "["@ + kind + ": "@ + text::or_text(item.text_field("mimeType"@), "?"@) + ", "@
        + text::nat_text(data_len(item)) + " bytes base64 — pass --json for raw data]\n"@
}

/// What is shown of a resource: its text, or a line that stands for it.
pub open spec fn resource_text(resource: JsonView) -> Seq<char> {
    let head = "[resource: "@ + text::or_text(resource.text_field("uri"@), "?"@);
    match resource.text_field("text"@) {
        Some(t) => {
            let named = match resource.text_field("mimeType"@) {
                Some(m) => head + ", "@ + m,
                None => head,
            };
            named + "]\n"@ + t + "\n"@
        },
        None => if resource.field("blob"@) is Some {
            head + " (binary) — pass --json for raw data]\n"@
        } else {
            head + "]\n"@
        },
    }
}

/// What is shown of one item of a result.
pub open spec fn item_text(item: JsonView) -> Seq<char> {
    match item.text_field("type"@) {
        None => seq![],
        Some(kind) => if kind == "text"@ {
            match item.text_field("text"@) {
                Some(t) => t + "\n"@,
                None => seq![],
            }
        } else if kind == "image"@ || kind == "audio"@ {
            media_text(kind, item)
        } else if kind == "resource"@ {
            resource_text(json::value_or_null(item.field("resource"@)))
        } else {
            "["@ + kind + " content — pass --json for raw output]\n"@
        },
    }
}

/// What is shown of the items of a result, one after the other.
pub open spec fn items_text(items: Seq<JsonView>) -> Seq<char>
    decreases items.len(),
{
    if items.len() == 0 {
        seq![]
    } else {
        items_text(items.drop_last()) + item_text(items.last())
    }
}

/// What is shown of a result. One without a list of items is shown as it is.
pub open spec fn result_text(result: JsonView) -> Seq<char> {
    match result.items_field("content"@) {
        None => json::pretty_of_json(result) + "\n"@,
        Some(items) => if items.len() == 0 {
            "(empty result)\n"@
        } else {
            items_text(items)
        },
    }
}

/// Whether a result says that the tool failed.
pub open spec fn is_error(result: JsonView) -> bool {
    result.truth_field("isError"@) == Some(true)
}

/// Shows one item of a result.
pub fn render_content_item(item: &Json, out: &mut String)
    ensures
        final(out)@ == old(out)@ + item_text(item@),
{
    let kind = match item.get_str("type") {
        Some(kind) => kind,
        None => {
            assert(old(out)@ + Seq::<char>::empty() == old(out)@);
            return ;
        },
    };
    let mut line = String::new();
    if text::same(kind, "text") {
        if let Some(t) = item.get_str("text") {
            line.append(t);
            line.append("\n");
            assert(line@ == t@ + "\n"@);
        }
    } else if text::same(kind, "image") || text::same(kind, "audio") {
        line = render_media(kind, item);
    } else if text::same(kind, "resource") {
        let none = Json::Null;
        let resource = match item.get("resource") {
            Some(r) => r,
            None => &none,
        };
        line = render_resource(resource);
    } else {
        line = "[".to_owned();
        line.append(kind);
        line.append(" content — pass --json for raw output]\n");
    }
    out.append(line.as_str());
}

/// The line that stands for a picture or for sound.
fn render_media(kind: &str, item: &Json) -> (r: String)
    ensures
        r@ == media_text(kind@, item@),
{
    let size: usize = match item.get_str("data") {
        Some(d) => d.as_bytes().len(),
        None => 0,
    };
    let mut line = "[".to_owned();
    line.append(kind);
    line.append(": ");
    match item.get_str("mimeType") {
        Some(m) => line.append(m),
        None => line.append("?"),
    }
    line.append(", ");
    line.append(text::show_usize(size).as_str());
    line.append(" bytes base64 — pass --json for raw data]\n");
    line
}

/// What is shown of a resource.
fn render_resource(resource: &Json) -> (r: String)
    ensures
        r@ == resource_text(resource@),
{
    let mut line = "[resource: ".to_owned();
    match resource.get_str("uri") {
        Some(u) => line.append(u),
        None => line.append("?"),
    }
    if let Some(t) = resource.get_str("text") {
        if let Some(m) = resource.get_str("mimeType") {
            line.append(", ");
            line.append(m);
        }
        line.append("]\n");
        line.append(t);
        line.append("\n");
    } else if resource.get("blob").is_some() {
        line.append(" (binary) — pass --json for raw data]\n");
    } else {
        line.append("]\n");
    }
    line
}

/// Shows a result.
pub fn render_result(result: &Json, out: &mut String)
    ensures
        final(out)@ == old(out)@ + result_text(result@),
{
    let items = match result.get_array("content") {
        Some(items) => items,
        None => {
            let mut all = result.to_pretty();
            all.append("\n");
            out.append(all.as_str());
            return ;
        },
    };
    if items.len() == 0 {
        out.append("(empty result)\n");
        return ;
    }
    let ghost before = out@;
    let ghost all = json::items_view(items@);
    assert(before + items_text(all.take(0)) == before);
    let mut i: usize = 0;
    while i < items.len()
        invariant
            i <= items@.len(),
            all == json::items_view(items@),
            out@ == before + items_text(all.take(i as int)),
        decreases items@.len() - i,
    {
        let ghost head = items_text(all.take(i as int));
        assert(all.take(i + 1).drop_last() == all.take(i as int));
        render_content_item(&items[i], out);
        assert(before + head + item_text(all[i as int]) == before + (head + item_text(
            all[i as int],
        )));
        i += 1;
    }
    assert(all.take(i as int) == all);
}

/// What a failed tool said, where the tool failed.
pub fn result_error_text(result: &Json) -> (r: Option<String>)
    ensures
        text::seen_string(r) == (if is_error(result@) {
            Some(text::trimmed(result_text(result@)))
        } else {
            None
        }),
{
    match result.get_bool("isError") {
        Some(true) => {
            let mut out = String::new();
            render_result(result, &mut out);
            assert(out@ == result_text(result@));
            Some(text::trim(out.as_str()))
        },
        _ => None,
    }
}

// --- structured content -----------------------------------------------------------------

/// Why a result gives no structured content.
#[derive(Debug)]
pub enum ContentError {
    /// It has neither structured content nor text.
    Missing,
    /// Its text is no JSON; the reason is given.
    Unreadable(String),
}

impl ContentError {
    /// The error in words.
    pub open spec fn words(&self) -> Seq<char> {
        match self {
            ContentError::Missing => "MCP result had no structuredContent or text content"@,
            ContentError::Unreadable(e) => "parsing MCP text content as JSON: "@ + e@,
        }
    }

    /// The error in words.
    pub fn message(&self) -> (r: String)
        ensures
            r@ == self.words(),
    {
        match self {
            ContentError::Missing => {
                "MCP result had no structuredContent or text content".to_owned()
            },
            ContentError::Unreadable(e) => {
                let mut r = "parsing MCP text content as JSON: ".to_owned();
                r.append(e.as_str());
                r
            },
        }
    }
}

/// The text of an item, where it is one of text.
pub open spec fn text_item(item: JsonView) -> Option<Seq<char>> {
    if item.text_field("type"@) == Some("text"@) {
        item.text_field("text"@)
    } else {
        None
    }
}

/// The first text among the items.
pub open spec fn first_text(items: Seq<JsonView>) -> Option<Seq<char>>
    decreases items.len(),
{
    if items.len() == 0 {
        None
    } else {
        match text_item(items[0]) {
            Some(t) => Some(t),
            None => first_text(items.skip(1)),
        }
    }
}

/// The first text of a result.
pub open spec fn result_first_text(result: JsonView) -> Option<Seq<char>> {
    match result.items_field("content"@) {
        Some(items) => first_text(items),
        None => None,
    }
}

/// Whether `r` is the structured content of `result`, read out of its first text where it
/// does not come as such, or says why there is none.
pub open spec fn is_content(result: JsonView, r: Result<Json, ContentError>) -> bool {
    match result.field("structuredContent"@) {
        Some(sc) => r matches Ok(v) && v@ == sc,
        None => match result_first_text(result) {
            None => r matches Err(ContentError::Missing),
            Some(t) => match json::json_of_text(t) {
                Ok(v) => r matches Ok(w) && w@ == v,
                Err(e) => r matches Err(ContentError::Unreadable(why)) && why@ == e,
            },
        },
    }
}

/// The structured content of a result.
pub fn structured_content(result: &Json) -> (r: Result<Json, ContentError>)
    ensures
        is_content(result@, r),
{
    if let Some(sc) = result.get("structuredContent") {
        return Ok(sc.copy());
    }
    let items = match result.get_array("content") {
        Some(items) => items,
        None => return Err(ContentError::Missing),
    };
    let ghost all = json::items_view(items@);
    assert(all.skip(0) == all);
    let mut i: usize = 0;
    while i < items.len()
        invariant
            i <= items@.len(),
            all == json::items_view(items@),
            result@.field("structuredContent"@) is None,
            result_first_text(result@) == first_text(all.skip(i as int)),
        decreases items@.len() - i,
    {
        let ghost rest = all.skip(i as int);
        assert(rest[0] == items@[i as int]@);
        assert(rest.skip(1) == all.skip(i + 1));
        if let Some(kind) = items[i].get_str("type") {
            if text::same(kind, "text") {
                if let Some(t) = items[i].get_str("text") {
                    return match Json::parse(t) {
                        Ok(v) => Ok(v),
                        Err(e) => Err(ContentError::Unreadable(e)),
                    };
                }
            }
        }
        i += 1;
    }
    Err(ContentError::Missing)
}

// --- printing ---------------------------------------------------------------------------

/// Prints a result behind what was printed before: as it is where `as_json` asks for it,
/// else as text. Says whether the tool failed, unless the result is printed as it is.
pub fn print_result(result: &Json, as_json: bool, out: &mut String) -> (r: Result<(), ToolError>)
    ensures
        final(out)@ == old(out)@ + (if as_json {
            json::pretty_of_json(result@) + "\n"@
        } else {
            result_text(result@)
        }),
        r is Err <==> !as_json && is_error(result@),
{
    if as_json {
        let mut all = result.to_pretty();
        all.append("\n");
        out.append(all.as_str());
        return Ok(());
    }
    render_result(result, out);
    match result.get_bool("isError") {
        Some(true) => Err(ToolError::Failed),
        _ => Ok(()),
    }
}

/// Why a tool call counts as failed.
#[derive(Debug)]
pub enum ToolError {
    /// The tool said that it failed.
    Failed,
}

impl ToolError {
    /// The error in words.
    pub open spec fn words(&self) -> Seq<char> {
        "tool returned isError=true"@
    }

    /// The error in words.
    pub fn message(&self) -> (r: String)
        ensures
            r@ == self.words(),
    {
        "tool returned isError=true".to_owned()
    }
}

// --- laws -------------------------------------------------------------------------------

/// No binary data is shown: of a picture or of sound only the type and the size make a
/// difference.
pub proof fn law_media_data_is_not_shown(a: JsonView, b: JsonView)
    requires
        a.text_field("type"@) == b.text_field("type"@),
        a.text_field("type"@) == Some("image"@) || a.text_field("type"@) == Some("audio"@),
        a.text_field("mimeType"@) == b.text_field("mimeType"@),
        data_len(a) == data_len(b),
    ensures
        item_text(a) == item_text(b),
{
    reveal_strlit("image");
    reveal_strlit("audio");
    reveal_strlit("text");
    assert("text"@.len() == 4 && "image"@.len() == 5 && "audio"@.len() == 5);
}

/// Of a resource without text only its address makes a difference, and whether it has data.
pub proof fn law_blob_is_not_shown(a: JsonView, b: JsonView)
    requires
        a.text_field("text"@) is None,
        b.text_field("text"@) is None,
        a.text_field("uri"@) == b.text_field("uri"@),
        a.field("blob"@) is Some == b.field("blob"@) is Some,
    ensures
        resource_text(a) == resource_text(b),
{
}

proof fn lemma_items_text_adds(a: Seq<JsonView>, b: Seq<JsonView>)
    ensures
        items_text(a + b) == items_text(a) + items_text(b),
    decreases b.len(),
{
    if b.len() == 0 {
        assert(a + b == a);
        assert(items_text(a) + Seq::<char>::empty() == items_text(a));
    } else {
        lemma_items_text_adds(a, b.drop_last());
        assert((a + b).drop_last() == a + b.drop_last());
        assert(items_text(a) + (items_text(b.drop_last()) + item_text(b.last())) == items_text(a)
            + items_text(b.drop_last()) + item_text(b.last()));
    }
}

/// Every text of a result is shown as it is, on lines of its own.
pub proof fn law_text_is_shown_verbatim(items: Seq<JsonView>, i: int, t: Seq<char>)
    requires
        0 <= i < items.len(),
        text_item(items[i]) == Some(t),
    ensures
        items_text(items) == items_text(items.take(i)) + t + "\n"@ + items_text(items.skip(i + 1)),
{
    let head = items.take(i);
    let tail = items.skip(i + 1);
    assert(items == head.push(items[i]) + tail);
    lemma_items_text_adds(head.push(items[i]), tail);
    assert(head.push(items[i]).drop_last() == head);
    assert(items_text(head) + (t + "\n"@) == items_text(head) + t + "\n"@);
}

/// Every item of a result is shown, in its place among the others.
pub proof fn law_every_item_is_shown(
    result: JsonView,
    a: Seq<JsonView>,
    item: JsonView,
    b: Seq<JsonView>,
)
    requires
        result.field("content"@) == Some(JsonView::Array(a.push(item) + b)),
    ensures
        result_text(result) == items_text(a) + item_text(item) + items_text(b),
        items_text(a + b) == items_text(a) + items_text(b),
        items_text(seq![item]) == item_text(item),
{
    lemma_items_text_adds(a, b);
    lemma_items_text_adds(a.push(item), b);
    assert(a.push(item).drop_last() == a);
    let none = seq![item].drop_last();
    assert(none == Seq::<JsonView>::empty());
    assert(items_text(none) == Seq::<char>::empty());
    assert(seq![item].last() == item);
    assert(Seq::<char>::empty() + item_text(item) == item_text(item));
}

proof fn lemma_kinds()
    ensures
        "text"@.len() == 4,
        "image"@.len() == 5 && "image"@[0] == 'i',
        "audio"@.len() == 5 && "audio"@[0] == 'a',
        "resource"@.len() == 8,
{
    reveal_strlit("text");
    reveal_strlit("image");
    reveal_strlit("audio");
    reveal_strlit("resource");
}

/// Text is shown as it is, to its last character; a picture or sound with its kind, its type
/// and how many bytes its data takes; text in a resource as it is, below the address of the
/// resource; anything else by its kind.
pub proof fn law_item_is_shown_by_its_kind(item: JsonView, kind: Seq<char>)
    requires
        item.field("type"@) == Some(JsonView::Str(kind)),
    ensures
        kind == "text"@ ==> (item.field("text"@) matches Some(JsonView::Str(t)) ==> item_text(item)
            == t + "\n"@),
        kind == "text"@ && item.field("text"@) is None ==> item_text(item).len() == 0,
        kind == "image"@ || kind == "audio"@ ==> item_text(item) == "["@ + kind + ": "@ + (
        match item.field("mimeType"@) {
            Some(JsonView::Str(m)) => m,
            _ => "?"@,
        }) + ", "@ + text::nat_text(
            match item.field("data"@) {
                Some(JsonView::Str(d)) => vstd::utf8::encode_utf8(d).len(),
                _ => 0,
            },
        ) + " bytes base64 — pass --json for raw data]\n"@,
        kind == "resource"@ ==> (item.field("resource"@) matches Some(r) ==> (r.field(
            "text"@,
        ) matches Some(JsonView::Str(t)) ==> text::holds(item_text(item), t) && (r.field(
            "uri"@,
        ) matches Some(JsonView::Str(u)) ==> text::begins(item_text(item), "[resource: "@ + u)))),
        kind != "text"@ && kind != "image"@ && kind != "audio"@ && kind != "resource"@ ==> item_text(
            item,
        ) == "["@ + kind + " content — pass --json for raw output]\n"@,
{
    lemma_kinds();
    if kind == "resource"@ {
        if let Some(r) = item.field("resource"@) {
            let head = "[resource: "@ + text::or_text(r.text_field("uri"@), "?"@);
            let named = match r.text_field("mimeType"@) {
                Some(m) => head + ", "@ + m,
                None => head,
            };
            if let Some(t) = r.text_field("text"@) {
                text::lemma_holds(named + "]\n"@, t, "\n"@);
                assert(resource_text(r) == named + "]\n"@ + t + "\n"@);
                assert(resource_text(r).subrange(0, head.len() as int) == head);
            }
        }
    }
}

/// A result without items, and one that is no list of items, say so.
pub proof fn law_result_without_items(result: JsonView)
    ensures
        result.field("content"@) == Some(JsonView::Array(seq![])) ==> result_text(result)
            == "(empty result)\n"@,
        result.field("content"@) is None ==> result_text(result) == json::pretty_of_json(result)
            + "\n"@,
{
}

/// A tool failed exactly where its result says so.
pub proof fn law_failure_is_what_the_result_says(result: JsonView)
    ensures
        is_error(result) <==> result.field("isError"@) == Some(JsonView::Bool(true)),
{
}

/// The first text of a result is that of the first item that is one of text.
pub proof fn law_first_text_comes_first(a: Seq<JsonView>, item: JsonView, b: Seq<JsonView>)
    requires
        forall|i: int| 0 <= i < a.len() ==> text_item(#[trigger] a[i]) is None,
        text_item(item) is Some,
    ensures
        first_text(a.push(item) + b) == text_item(item),
        first_text(a) is None,
    decreases a.len(),
{
    let all = a.push(item) + b;
    if a.len() == 0 {
        assert(all[0] == item);
    } else {
        assert(all[0] == a[0]);
        law_first_text_comes_first(a.skip(1), item, b);
        assert(all.skip(1) == a.skip(1).push(item) + b);
    }
}

/// The content of a result is what comes as such, whatever its text says; else it is what the
/// first text reads as.
pub proof fn law_content_is_taken_as_it_comes(result: JsonView, r: Result<Json, ContentError>)
    requires
        is_content(result, r),
    ensures
        result.field("structuredContent"@) matches Some(sc) ==> r is Ok && r->Ok_0@ == sc,
        result.field("structuredContent"@) is None ==> (result_first_text(result) matches Some(t)
            ==> (json::json_of_text(t) matches Ok(v) ==> r is Ok && r->Ok_0@ == v)),
        result.field("structuredContent"@) is None && result_first_text(result) is None
            ==> r is Err,
        result.field("content"@) is None ==> result_first_text(result) is None,
        result.field("content"@) matches Some(JsonView::Array(items)) ==> result_first_text(result)
            == first_text(items),
{
}

/// A resource is shown with its address, and its type where it has text; one without text says
/// whether it is binary.
pub proof fn law_resource_is_shown_with_its_address(r: JsonView)
    ensures
        ({
            let head = "[resource: "@ + (match r.field("uri"@) {
                Some(JsonView::Str(u)) => u,
                _ => "?"@,
            });
            &&& r.field("text"@) matches Some(JsonView::Str(t)) ==> (r.field(
                "mimeType"@,
            ) matches Some(JsonView::Str(m)) ==> resource_text(r) == head + ", "@ + m + "]\n"@ + t
                + "\n"@)
            &&& r.field("text"@) matches Some(JsonView::Str(t)) ==> r.field("mimeType"@) is None
                ==> resource_text(r) == head + "]\n"@ + t + "\n"@
            &&& r.field("text"@) is None && r.field("blob"@) is Some ==> resource_text(r) == head
                + " (binary) — pass --json for raw data]\n"@
            &&& r.field("text"@) is None && r.field("blob"@) is None ==> resource_text(r) == head
                + "]\n"@
        }),
{
}

} // verus!
