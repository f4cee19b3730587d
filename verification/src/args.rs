//! The tool calls behind the subcommands, and the arguments that they carry.

use vstd::prelude::*;

use crate::json;
use crate::json::{Json, JsonMap, JsonView};
use crate::text;

verus! {

/// A call of a tool.
#[derive(Debug)]
pub struct ToolCall {
    /// The name of the tool.
    pub tool: String,
    /// Its arguments, an object.
    pub args: Json,
}

impl ToolCall {
    /// Whether this is a call of `tool` with `args`.
    pub open spec fn calls(&self, tool: Seq<char>, args: Map<Seq<char>, JsonView>) -> bool {
        self.tool@ == tool && self.args@ == JsonView::Object(args)
    }
}

/// An object without fields.
pub open spec fn no_args() -> Map<Seq<char>, JsonView> {
    Map::empty()
}

/// The arguments with a text in the field `key`, where there is a text.
pub open spec fn with_text(
    args: Map<Seq<char>, JsonView>,
    key: Seq<char>,
    value: Option<Seq<char>>,
) -> Map<Seq<char>, JsonView> {
    match value {
        Some(v) => args.insert(key, JsonView::Str(v)),
        None => args,
    }
}

/// The arguments with an integer in the field `key`, where there is an integer.
pub open spec fn with_int(
    args: Map<Seq<char>, JsonView>,
    key: Seq<char>,
    value: Option<i32>,
) -> Map<Seq<char>, JsonView> {
    match value {
        Some(v) => args.insert(key, JsonView::Int(v as int)),
        None => args,
    }
}

/// The arguments with a list of texts in the field `key`, where the list is not empty.
pub open spec fn with_texts(
    args: Map<Seq<char>, JsonView>,
    key: Seq<char>,
    values: Seq<Seq<char>>,
) -> Map<Seq<char>, JsonView> {
    if values.len() > 0 {
        args.insert(key, json::text_array(values))
    } else {
        args
    }
}

fn put_text(args: &mut JsonMap, key: &str, value: &Option<String>)
    ensures
        final(args)@ == with_text(old(args)@, key@, text::seen_string(*value)),
{
    if let Some(v) = value {
        args.insert(key, Json::text(v.as_str()));
    }
}

fn put_int(args: &mut JsonMap, key: &str, value: Option<i32>)
    ensures
        final(args)@ == with_int(old(args)@, key@, value),
{
    if let Some(v) = value {
        args.insert(key, Json::Int(v as i64));
    }
}

fn put_texts(args: &mut JsonMap, key: &str, values: &Vec<String>)
    ensures
        final(args)@ == with_texts(old(args)@, key@, text::texts(values@)),
{
    if values.len() > 0 {
        args.insert(key, Json::strings(values));
    }
}

// --- companies --------------------------------------------------------------------------

/// Search for companies by name.
pub fn search(query: &str) -> (r: ToolCall)
    ensures
        r.calls("search-companies"@, no_args().insert("query"@, JsonView::Str(query@))),
{
    let mut args = JsonMap::new();
    args.insert("query", Json::text(query));
    ToolCall { tool: "search-companies".to_owned(), args: Json::Object(args) }
}

/// The arguments of a call for fundamentals: what was left open is left out.
pub open spec fn fundamentals_map(
    company_ids: Seq<Seq<char>>,
    resolution: Seq<char>,
    fields: Seq<Seq<char>>,
    start_year: Option<i32>,
    end_year: Option<i32>,
) -> Map<Seq<char>, JsonView> {
    let given = no_args().insert("companyIds"@, json::text_array(company_ids)).insert(
        "resolution"@,
        JsonView::Str(resolution),
    );
    with_int(
        with_int(with_texts(given, "fields"@, fields), "startYear"@, start_year),
        "endYear"@,
        end_year,
    )
}

/// The arguments of a call for fundamentals.
pub fn fundamentals_args(
    company_ids: &Vec<String>,
    resolution: &str,
    fields: &Vec<String>,
    start_year: Option<i32>,
    end_year: Option<i32>,
) -> (r: Json)
    ensures
        r@ == JsonView::Object(
            fundamentals_map(
                text::texts(company_ids@),
                resolution@,
                text::texts(fields@),
                start_year,
                end_year,
            ),
        ),
{
    let mut args = JsonMap::new();
    args.insert("companyIds", Json::strings(company_ids));
    args.insert("resolution", Json::text(resolution));
    put_texts(&mut args, "fields", fields);
    put_int(&mut args, "startYear", start_year);
    put_int(&mut args, "endYear", end_year);
    Json::Object(args)
}

/// Historical figures of companies.
pub fn fundamentals(
    company_ids: &Vec<String>,
    resolution: &str,
    fields: &Vec<String>,
    start_year: Option<i32>,
    end_year: Option<i32>,
) -> (r: ToolCall)
    ensures
        r.calls(
            "get-fundamentals"@,
            fundamentals_map(
                text::texts(company_ids@),
                resolution@,
                text::texts(fields@),
                start_year,
                end_year,
            ),
        ),
{
    ToolCall {
        tool: "get-fundamentals".to_owned(),
        args: fundamentals_args(company_ids, resolution, fields, start_year, end_year),
    }
}

/// The arguments of a call for estimates: without companies the whole universe is asked for.
pub open spec fn estimates_map(
    company_ids: Seq<Seq<char>>,
    fields: Seq<Seq<char>>,
    count: u32,
    quarters: bool,
    year_count: u32,
) -> Map<Seq<char>, JsonView> {
    with_texts(no_args(), "companyIds"@, company_ids).insert(
        "fields"@,
        json::text_array(fields),
    ).insert("count"@, JsonView::Int(count as int)).insert(
        "includeQuarters"@,
        JsonView::Bool(quarters),
    ).insert("yearCount"@, JsonView::Int(year_count as int))
}

/// The arguments of a call for estimates.
pub fn estimates_args(
    company_ids: &Vec<String>,
    fields: &Vec<String>,
    count: u32,
    quarters: bool,
    year_count: u32,
) -> (r: Json)
    ensures
        r@ == JsonView::Object(
            estimates_map(
                text::texts(company_ids@),
                text::texts(fields@),
                count,
                quarters,
                year_count,
            ),
        ),
{
    let mut args = JsonMap::new();
    put_texts(&mut args, "companyIds", company_ids);
    args.insert("fields", Json::strings(fields));
    args.insert("count", Json::UInt(count as u64));
    args.insert("includeQuarters", Json::Bool(quarters));
    args.insert("yearCount", Json::UInt(year_count as u64));
    Json::Object(args)
}

/// Estimates and recommendations of the analysts.
pub fn estimates(
    company_ids: &Vec<String>,
    fields: &Vec<String>,
    count: u32,
    quarters: bool,
    year_count: u32,
) -> (r: ToolCall)
    ensures
        r.calls(
            "get-inderes-estimates"@,
            estimates_map(
                text::texts(company_ids@),
                text::texts(fields@),
                count,
                quarters,
                year_count,
            ),
        ),
{
    ToolCall {
        tool: "get-inderes-estimates".to_owned(),
        args: estimates_args(company_ids, fields, count, quarters, year_count),
    }
}

// --- content and documents --------------------------------------------------------------

/// The arguments of a call for a list of content.
pub open spec fn content_list_map(
    company_id: Option<Seq<char>>,
    types: Seq<Seq<char>>,
    first: u32,
    after: Option<Seq<char>>,
) -> Map<Seq<char>, JsonView> {
    with_text(
        with_texts(with_text(no_args(), "companyId"@, company_id), "types"@, types).insert(
            "first"@,
            JsonView::Int(first as int),
        ),
        "after"@,
        after,
    )
}

/// The arguments of a call for a list of content.
pub fn content_list_args(
    company_id: &Option<String>,
    types: &Vec<String>,
    first: u32,
    after: &Option<String>,
) -> (r: Json)
    ensures
        r@ == JsonView::Object(
            content_list_map(
                text::seen_string(*company_id),
                text::texts(types@),
                first,
                text::seen_string(*after),
            ),
        ),
{
    let mut args = JsonMap::new();
    put_text(&mut args, "companyId", company_id);
    put_texts(&mut args, "types", types);
    args.insert("first", Json::UInt(first as u64));
    put_text(&mut args, "after", after);
    Json::Object(args)
}

/// Reports, articles and comments.
pub fn content_list(
    company_id: &Option<String>,
    types: &Vec<String>,
    first: u32,
    after: &Option<String>,
) -> (r: ToolCall)
    ensures
        r.calls(
            "list-content"@,
            content_list_map(
                text::seen_string(*company_id),
                text::texts(types@),
                first,
                text::seen_string(*after),
            ),
        ),
{
    ToolCall {
        tool: "list-content".to_owned(),
        args: content_list_args(company_id, types, first, after),
    }
}

/// Whether a text is the address of a web page.
pub open spec fn is_web_address(s: Seq<char>) -> bool {
    text::begins(s, "http://"@) || text::begins(s, "https://"@)
}

/// The arguments of a call for one piece of content, by its address or by its number.
pub open spec fn content_get_map(id_or_url: Seq<char>, lang: Option<Seq<char>>) -> Map<
    Seq<char>,
    JsonView,
> {
    let key = if is_web_address(id_or_url) {
        "url"@
    } else {
        "contentId"@
    };
    with_text(no_args().insert(key, JsonView::Str(id_or_url)), "lang"@, lang)
}

/// The arguments of a call for one piece of content.
pub fn content_get_args(id_or_url: &str, lang: &Option<String>) -> (r: Json)
    ensures
        r@ == JsonView::Object(content_get_map(id_or_url@, text::seen_string(*lang))),
{
    let mut args = JsonMap::new();
    if text::starts_with(id_or_url, "http://") || text::starts_with(id_or_url, "https://") {
        args.insert("url", Json::text(id_or_url));
    } else {
        args.insert("contentId", Json::text(id_or_url));
    }
    put_text(&mut args, "lang", lang);
    Json::Object(args)
}

/// One piece of content.
pub fn content_get(id_or_url: &str, lang: &Option<String>) -> (r: ToolCall)
    ensures
        r.calls("get-content"@, content_get_map(id_or_url@, text::seen_string(*lang))),
{
    ToolCall { tool: "get-content".to_owned(), args: content_get_args(id_or_url, lang) }
}

/// The arguments of a call for the documents of a company.
pub open spec fn documents_list_map(
    company_id: Seq<char>,
    first: u32,
    after: Option<Seq<char>>,
) -> Map<Seq<char>, JsonView> {
    with_text(
        no_args().insert("companyId"@, JsonView::Str(company_id)).insert(
            "first"@,
            JsonView::Int(first as int),
        ),
        "after"@,
        after,
    )
}

/// The arguments of a call for the documents of a company.
pub fn documents_list_args(company_id: &str, first: u32, after: &Option<String>) -> (r: Json)
    ensures
        r@ == JsonView::Object(
            documents_list_map(company_id@, first, text::seen_string(*after)),
        ),
{
    let mut args = JsonMap::new();
    args.insert("companyId", Json::text(company_id));
    args.insert("first", Json::UInt(first as u64));
    put_text(&mut args, "after", after);
    Json::Object(args)
}

/// The documents of a company.
pub fn documents_list(company_id: &str, first: u32, after: &Option<String>) -> (r: ToolCall)
    ensures
        r.calls(
            "list-company-documents"@,
            documents_list_map(company_id@, first, text::seen_string(*after)),
        ),
{
    ToolCall {
        tool: "list-company-documents".to_owned(),
        args: documents_list_args(company_id, first, after),
    }
}

/// One document.
pub fn documents_get(document_id: &str) -> (r: ToolCall)
    ensures
        r.calls("get-document"@, no_args().insert("documentId"@, JsonView::Str(document_id@))),
{
    let mut args = JsonMap::new();
    args.insert("documentId", Json::text(document_id));
    ToolCall { tool: "get-document".to_owned(), args: Json::Object(args) }
}

/// Sections of a document.
pub fn documents_read(document_id: &str, sections: &Vec<u32>) -> (r: ToolCall)
    ensures
        r.calls(
            "read-document-sections"@,
            no_args().insert("documentId"@, JsonView::Str(document_id@)).insert(
                "sectionNumbers"@,
                JsonView::Array(sections@.map_values(|n: u32| JsonView::Int(n as int))),
            ),
        ),
{
    let mut numbers: Vec<Json> = Vec::new();
    let mut i: usize = 0;
    while i < sections.len()
        invariant
            i <= sections@.len(),
            numbers@.len() == i,
            forall|j: int|
                0 <= j < i ==> (#[trigger] numbers@[j])@ == JsonView::Int(sections@[j] as int),
        decreases sections@.len() - i,
    {
        numbers.push(Json::UInt(sections[i] as u64));
        i += 1;
    }
    assert(json::items_view(numbers@) =~= sections@.map_values(
        |n: u32| JsonView::Int(n as int),
    ));
    let mut args = JsonMap::new();
    args.insert("documentId", Json::text(document_id));
    args.insert("sectionNumbers", Json::Array(numbers));
    ToolCall { tool: "read-document-sections".to_owned(), args: Json::Object(args) }
}

/// Search for threads of the forum.
pub fn forum_search(query: &str) -> (r: ToolCall)
    ensures
        r.calls(
            "search-forum-topics"@,
            no_args().insert("text"@, JsonView::Str(query@)).insert(
                "order"@,
                JsonView::Str("relevancy"@),
            ),
        ),
{
    let mut args = JsonMap::new();
    args.insert("text", Json::text(query));
    args.insert("order", Json::text("relevancy"));
    ToolCall { tool: "search-forum-topics".to_owned(), args: Json::Object(args) }
}

// --- any tool ---------------------------------------------------------------------------

/// Why arguments cannot be used.
#[derive(Debug)]
pub enum ArgsError {
    /// The JSON text cannot be read; the text and the reason are given.
    Unreadable(String, String),
    /// The JSON text is no object.
    NotObject,
    /// An argument has no equals sign.
    NoEquals(String),
}

impl ArgsError {
    /// The error in words.
    pub open spec fn words(&self) -> Seq<char> {
        match self {
            ArgsError::Unreadable(raw, why) => "parsing --json-args: "@ + raw@ + ": "@ + why@,
            ArgsError::NotObject => "--json-args must be a JSON object"@,
            ArgsError::NoEquals(entry) => "--arg must be KEY=VALUE, got "@ + text::debug_text(
                entry@,
            ),
        }
    }

    /// The error in words.
    pub fn message(&self) -> (r: String)
        ensures
            r@ == self.words(),
    {
        match self {
            ArgsError::Unreadable(raw, why) => {
                let mut r = "parsing --json-args: ".to_owned();
                r.append(raw.as_str());
                r.append(": ");
                r.append(why.as_str());
                r
            },
            ArgsError::NotObject => "--json-args must be a JSON object".to_owned(),
            ArgsError::NoEquals(entry) => {
                let mut r = "--arg must be KEY=VALUE, got ".to_owned();
                r.append(text::quote(entry.as_str()).as_str());
                r
            },
        }
    }
}

/// What stands before the first equals sign.
pub open spec fn entry_key(entry: Seq<char>) -> Seq<char> {
    entry.take(text::first_at(entry, '=') as int)
}

/// The value behind the first equals sign: as JSON where it is JSON, else as text.
pub open spec fn entry_value(entry: Seq<char>) -> JsonView {
    let raw = entry.skip(text::first_at(entry, '=') as int + 1);
    match json::json_of_text(raw) {
        Ok(v) => v,
        Err(_) => JsonView::Str(raw),
    }
}

/// Whether an entry has an equals sign.
pub open spec fn has_equals(entry: Seq<char>) -> bool {
    text::first_at(entry, '=') < entry.len()
}

/// The fields that the first `n` entries make, a later one before an earlier one.
pub open spec fn entries_map(entries: Seq<Seq<char>>, n: nat) -> Map<Seq<char>, JsonView>
    decreases n,
{
    if n == 0 || n > entries.len() {
        Map::empty()
    } else {
        entries_map(entries, (n - 1) as nat).insert(
            entry_key(entries[n - 1]),
            entry_value(entries[n - 1]),
        )
    }
}

/// Whether `r` is what entries and a JSON text make of the arguments. The JSON text goes
/// first: where there is one, the entries are not looked at.
pub open spec fn is_args(
    entries: Seq<Seq<char>>,
    json_args: Option<Seq<char>>,
    r: Result<Json, ArgsError>,
) -> bool {
    match json_args {
        Some(raw) => match json::json_of_text(raw) {
            Err(why) => r matches Err(ArgsError::Unreadable(t, e)) && t@ == raw && e@ == why,
            Ok(v) => if v is Object {
                r matches Ok(args) && args@ == v
            } else {
                r matches Err(ArgsError::NotObject)
            },
        },
        None => match r {
            Ok(args) => {
                &&& forall|i: int| 0 <= i < entries.len() ==> has_equals(#[trigger] entries[i])
                &&& args@ == JsonView::Object(entries_map(entries, entries.len()))
            },
            Err(ArgsError::NoEquals(e)) => exists|i: int|
                0 <= i < entries.len() && !has_equals(#[trigger] entries[i]) && e@ == entries[i]
                    && (forall|j: int| 0 <= j < i ==> has_equals(#[trigger] entries[j])),
            Err(_) => false,
        },
    }
}

/// The arguments of a call of any tool, out of `KEY=VALUE` entries or of a JSON text.
pub fn build_args(kv_args: &Vec<String>, json_args: &Option<String>) -> (r: Result<
    Json,
    ArgsError,
>)
    ensures
        is_args(text::texts(kv_args@), text::seen_string(*json_args), r),
{
    if let Some(raw) = json_args {
        return match Json::parse(raw.as_str()) {
            Err(why) => Err(ArgsError::Unreadable(raw.clone(), why)),
            Ok(v) => if v.is_object() {
                Ok(v)
            } else {
                Err(ArgsError::NotObject)
            },
        };
    }
    let ghost entries = text::texts(kv_args@);
    let mut map = JsonMap::new();
    let mut i: usize = 0;
    while i < kv_args.len()
        invariant
            i <= kv_args@.len(),
            json_args is None,
            entries == text::texts(kv_args@),
            map@ == entries_map(entries, i as nat),
            forall|j: int| 0 <= j < i ==> has_equals(#[trigger] entries[j]),
        decreases kv_args@.len() - i,
    {
        assert(entries[i as int] == kv_args@[i as int]@);
        match text::split_once(kv_args[i].as_str(), '=') {
            None => {
                return Err(ArgsError::NoEquals(kv_args[i].clone()));
            },
            Some((k, v)) => {
                let value = match Json::parse(v.as_str()) {
                    Ok(value) => value,
                    Err(_) => Json::Str(v),
                };
                map.insert(k.as_str(), value);
            },
        }
        i += 1;
    }
    Ok(Json::Object(map))
}

/// A call of any tool.
pub fn call(tool: &str, kv_args: &Vec<String>, json_args: &Option<String>) -> (r: Result<
    ToolCall,
    ArgsError,
>)
    ensures
        match r {
            Ok(c) => c.tool@ == tool@ && is_args(
                text::texts(kv_args@),
                text::seen_string(*json_args),
                Ok::<Json, ArgsError>(c.args),
            ),
            Err(e) => is_args(
                text::texts(kv_args@),
                text::seen_string(*json_args),
                Err::<Json, ArgsError>(e),
            ),
        },
{
    match build_args(kv_args, json_args) {
        Ok(args) => Ok(ToolCall { tool: tool.to_owned(), args }),
        Err(e) => Err(e),
    }
}

/// The fields that the first `n` pairs make.
pub open spec fn pairs_map(pairs: Seq<(&str, &str)>, n: nat) -> Map<Seq<char>, JsonView>
    decreases n,
{
    if n == 0 || n > pairs.len() {
        Map::empty()
    } else {
        pairs_map(pairs, (n - 1) as nat).insert(pairs[n - 1].0@, JsonView::Str(pairs[n - 1].1@))
    }
}

/// Arguments that are all texts.
pub fn kv_to_args(pairs: &[(&str, &str)]) -> (r: Json)
    ensures
        r@ == JsonView::Object(pairs_map(pairs@, pairs@.len())),
{
    let mut m = JsonMap::new();
    let mut i: usize = 0;
    while i < pairs.len()
        invariant
            i <= pairs@.len(),
            m@ == pairs_map(pairs@, i as nat),
        decreases pairs@.len() - i,
    {
        m.insert(pairs[i].0, Json::text(pairs[i].1));
        i += 1;
    }
    Json::Object(m)
}

/// With a JSON text given, the entries make no difference.
pub proof fn law_json_args_override(
    a: Seq<Seq<char>>,
    b: Seq<Seq<char>>,
    raw: Seq<char>,
    r: Result<Json, ArgsError>,
)
    requires
        is_args(a, Some(raw), r),
    ensures
        is_args(b, Some(raw), r),
{
}

/// Arguments are sent only where they were given.
pub proof fn law_open_arguments_are_left_out(
    company_ids: Seq<Seq<char>>,
    resolution: Seq<char>,
    fields: Seq<Seq<char>>,
    start_year: Option<i32>,
    end_year: Option<i32>,
)
    ensures
        ({
            let args = fundamentals_map(company_ids, resolution, fields, start_year, end_year);
            &&& args.contains_key("fields"@) <==> fields.len() > 0
            &&& args.contains_key("startYear"@) <==> start_year is Some
            &&& args.contains_key("endYear"@) <==> end_year is Some
        }),
{
    reveal_strlit("companyIds");
    reveal_strlit("resolution");
    reveal_strlit("fields");
    reveal_strlit("startYear");
    reveal_strlit("endYear");
    assert("companyIds"@.len() == 10 && "resolution"@.len() == 10 && "fields"@.len() == 6);
    assert("startYear"@.len() == 9 && "endYear"@.len() == 7);
}

/// Whether the arguments have exactly the fields of a list.
pub open spec fn has_exactly(args: Map<Seq<char>, JsonView>, keys: Seq<Seq<char>>) -> bool {
    forall|k: Seq<char>| #[trigger] args.contains_key(k) ==> keys.contains(k)
}

/// Whether a field holds texts, in their order.
pub open spec fn holds_texts(
    args: Map<Seq<char>, JsonView>,
    key: Seq<char>,
    values: Seq<Seq<char>>,
) -> bool {
    &&& args.contains_key(key)
    &&& args[key] is Array
    &&& args[key]->Array_0.len() == values.len()
    &&& forall|i: int|
        0 <= i < values.len() ==> #[trigger] args[key]->Array_0[i] == JsonView::Str(values[i])
}

/// Whether a field holds an integer.
pub open spec fn holds_int(args: Map<Seq<char>, JsonView>, key: Seq<char>, n: int) -> bool {
    args.contains_key(key) && args[key] == JsonView::Int(n)
}

/// Whether a field holds a text.
pub open spec fn holds_text(
    args: Map<Seq<char>, JsonView>,
    key: Seq<char>,
    value: Seq<char>,
) -> bool {
    args.contains_key(key) && args[key] == JsonView::Str(value)
}

proof fn lemma_words()
    ensures
        "companyIds"@.len() == 10 && "companyIds"@[0] == 'c',
        "resolution"@.len() == 10 && "resolution"@[0] == 'r',
        "fields"@.len() == 6,
        "startYear"@.len() == 9 && "startYear"@[0] == 's',
        "endYear"@.len() == 7,
        "count"@.len() == 5 && "count"@[0] == 'c',
        "includeQuarters"@.len() == 15,
        "yearCount"@.len() == 9 && "yearCount"@[0] == 'y',
        "companyId"@.len() == 9 && "companyId"@[0] == 'c',
        "types"@.len() == 5 && "types"@[0] == 't',
        "first"@.len() == 5 && "first"@[0] == 'f',
        "after"@.len() == 5 && "after"@[0] == 'a',
        "url"@.len() == 3,
        "contentId"@.len() == 9,
        "lang"@.len() == 4,
{
    reveal_strlit("companyIds");
    reveal_strlit("resolution");
    reveal_strlit("fields");
    reveal_strlit("startYear");
    reveal_strlit("endYear");
    reveal_strlit("count");
    reveal_strlit("includeQuarters");
    reveal_strlit("yearCount");
    reveal_strlit("companyId");
    reveal_strlit("types");
    reveal_strlit("first");
    reveal_strlit("after");
    reveal_strlit("url");
    reveal_strlit("contentId");
    reveal_strlit("lang");
}

/// A call for fundamentals carries each value under its own name: the companies, the
/// resolution, the fields, the year from which and the year up to which; and nothing else.
pub proof fn law_fundamentals_are_asked_for_as_given(
    company_ids: Seq<Seq<char>>,
    resolution: Seq<char>,
    fields: Seq<Seq<char>>,
    start_year: Option<i32>,
    end_year: Option<i32>,
)
    ensures
        ({
            let args = fundamentals_map(company_ids, resolution, fields, start_year, end_year);
            &&& holds_texts(args, "companyIds"@, company_ids)
            &&& holds_text(args, "resolution"@, resolution)
            &&& fields.len() > 0 ==> holds_texts(args, "fields"@, fields)
            &&& fields.len() == 0 ==> !args.contains_key("fields"@)
            &&& start_year matches Some(y) ==> holds_int(args, "startYear"@, y as int)
            &&& start_year is None ==> !args.contains_key("startYear"@)
            &&& end_year matches Some(y) ==> holds_int(args, "endYear"@, y as int)
            &&& end_year is None ==> !args.contains_key("endYear"@)
            &&& has_exactly(
                args,
                seq!["companyIds"@, "resolution"@, "fields"@, "startYear"@, "endYear"@],
            )
        }),
{
    lemma_words();
    let keys = seq!["companyIds"@, "resolution"@, "fields"@, "startYear"@, "endYear"@];
    assert(keys[0] == "companyIds"@ && keys[1] == "resolution"@ && keys[2] == "fields"@);
    assert(keys[3] == "startYear"@ && keys[4] == "endYear"@);
}

/// A call for estimates carries each value under its own name, and nothing else.
pub proof fn law_estimates_are_asked_for_as_given(
    company_ids: Seq<Seq<char>>,
    fields: Seq<Seq<char>>,
    count: u32,
    quarters: bool,
    year_count: u32,
)
    ensures
        ({
            let args = estimates_map(company_ids, fields, count, quarters, year_count);
            &&& company_ids.len() > 0 ==> holds_texts(args, "companyIds"@, company_ids)
            &&& company_ids.len() == 0 ==> !args.contains_key("companyIds"@)
            &&& holds_texts(args, "fields"@, fields)
            &&& holds_int(args, "count"@, count as int)
            &&& args.contains_key("includeQuarters"@)
            &&& args["includeQuarters"@] == JsonView::Bool(quarters)
            &&& holds_int(args, "yearCount"@, year_count as int)
            &&& has_exactly(
                args,
                seq!["companyIds"@, "fields"@, "count"@, "includeQuarters"@, "yearCount"@],
            )
        }),
{
    lemma_words();
    let keys = seq!["companyIds"@, "fields"@, "count"@, "includeQuarters"@, "yearCount"@];
    assert(keys[0] == "companyIds"@ && keys[1] == "fields"@ && keys[2] == "count"@);
    assert(keys[3] == "includeQuarters"@ && keys[4] == "yearCount"@);
}

/// A call for a list of content carries each value under its own name, and nothing else.
pub proof fn law_content_is_listed_as_asked(
    company_id: Option<Seq<char>>,
    types: Seq<Seq<char>>,
    first: u32,
    after: Option<Seq<char>>,
)
    ensures
        ({
            let args = content_list_map(company_id, types, first, after);
            &&& company_id matches Some(c) ==> holds_text(args, "companyId"@, c)
            &&& company_id is None ==> !args.contains_key("companyId"@)
            &&& types.len() > 0 ==> holds_texts(args, "types"@, types)
            &&& types.len() == 0 ==> !args.contains_key("types"@)
            &&& holds_int(args, "first"@, first as int)
            &&& after matches Some(a) ==> holds_text(args, "after"@, a)
            &&& after is None ==> !args.contains_key("after"@)
            &&& has_exactly(args, seq!["companyId"@, "types"@, "first"@, "after"@])
        }),
{
    lemma_words();
    let keys = seq!["companyId"@, "types"@, "first"@, "after"@];
    assert(keys[0] == "companyId"@ && keys[1] == "types"@);
    assert(keys[2] == "first"@ && keys[3] == "after"@);
}

/// A call for the documents of a company carries each value under its own name, and nothing
/// else.
pub proof fn law_documents_are_listed_as_asked(
    company_id: Seq<char>,
    first: u32,
    after: Option<Seq<char>>,
)
    ensures
        ({
            let args = documents_list_map(company_id, first, after);
            &&& holds_text(args, "companyId"@, company_id)
            &&& holds_int(args, "first"@, first as int)
            &&& after matches Some(a) ==> holds_text(args, "after"@, a)
            &&& after is None ==> !args.contains_key("after"@)
            &&& has_exactly(args, seq!["companyId"@, "first"@, "after"@])
        }),
{
    lemma_words();
    let keys = seq!["companyId"@, "first"@, "after"@];
    assert(keys[0] == "companyId"@ && keys[1] == "first"@ && keys[2] == "after"@);
}

/// A piece of content is asked for by its address where that begins as a web address does,
/// else by its number; in the language that was asked for, if any.
pub proof fn law_content_is_asked_for_by_address_or_number(
    id_or_url: Seq<char>,
    lang: Option<Seq<char>>,
)
    ensures
        ({
            let args = content_get_map(id_or_url, lang);
            let web = id_or_url.len() >= 7 && id_or_url.take(7) == "http://"@ || id_or_url.len()
                >= 8 && id_or_url.take(8) == "https://"@;
            &&& web ==> holds_text(args, "url"@, id_or_url) && !args.contains_key("contentId"@)
            &&& !web ==> holds_text(args, "contentId"@, id_or_url) && !args.contains_key("url"@)
            &&& lang matches Some(l) ==> holds_text(args, "lang"@, l)
            &&& lang is None ==> !args.contains_key("lang"@)
            &&& has_exactly(args, seq!["url"@, "contentId"@, "lang"@])
        }),
{
    lemma_words();
    reveal_strlit("http://");
    reveal_strlit("https://");
    let keys = seq!["url"@, "contentId"@, "lang"@];
    assert(keys[0] == "url"@ && keys[1] == "contentId"@ && keys[2] == "lang"@);
    if id_or_url.len() >= 7 {
        assert(id_or_url.subrange(0, 7) == id_or_url.take(7));
    }
    if id_or_url.len() >= 8 {
        assert(id_or_url.subrange(0, 8) == id_or_url.take(8));
    }
}

proof fn lemma_split_entry(key: Seq<char>, value: Seq<char>)
    requires
        !key.contains('='),
    ensures
        text::first_at(key + seq!['='] + value, '=') == key.len(),
    decreases key.len(),
{
    let s = key + seq!['='] + value;
    if key.len() > 0 {
        assert(key.contains(key[0]));
        let rest = key.skip(1);
        assert forall|i: int| 0 <= i < rest.len() implies rest[i] != '=' by {
            assert(key.contains(key[i + 1]));
        }
        lemma_split_entry(rest, value);
        assert(s.skip(1) == rest + seq!['='] + value);
    }
}

/// An entry made of a key, an equals sign and a value is read as that key and that value, also
/// where the value holds equals signs. A value that reads as JSON is what it reads as, of
/// whatever kind; any other is sent as the text that it is.
pub proof fn law_entry_is_key_and_value(key: Seq<char>, value: Seq<char>)
    requires
        !key.contains('='),
    ensures
        ({
            let entry = key + seq!['='] + value;
            &&& has_equals(entry)
            &&& entry_key(entry) == key
            &&& json::json_of_text(value) matches Ok(v) ==> entry_value(entry) == v
            &&& json::json_of_text(value) is Err ==> entry_value(entry) == JsonView::Str(value)
        }),
{
    let entry = key + seq!['='] + value;
    lemma_split_entry(key, value);
    assert(entry.take(key.len() as int) == key);
    assert(entry.skip(key.len() as int + 1) == value);
}

/// An entry is refused exactly where it holds no equals sign.
pub proof fn law_entry_needs_an_equals_sign(entry: Seq<char>)
    ensures
        has_equals(entry) <==> entry.contains('='),
    decreases entry.len(),
{
    if entry.len() > 0 && entry[0] != '=' {
        law_entry_needs_an_equals_sign(entry.skip(1));
        if entry.contains('=') {
            let i = choose|i: int| 0 <= i < entry.len() && entry[i] == '=';
            assert(entry.skip(1)[i - 1] == '=');
        }
        if entry.skip(1).contains('=') {
            let i = choose|i: int| 0 <= i < entry.skip(1).len() && entry.skip(1)[i] == '=';
            assert(entry[i + 1] == '=');
        }
    } else if entry.len() > 0 {
        assert(entry[0] == '=');
    }
}

proof fn lemma_entries_map(keys: Seq<Seq<char>>, values: Seq<Seq<char>>, n: nat)
    requires
        keys.len() == values.len(),
        n <= keys.len(),
        forall|i: int| 0 <= i < keys.len() ==> !(#[trigger] keys[i]).contains('='),
    ensures
        ({
            let entries = Seq::new(keys.len(), |i: int| keys[i] + seq!['='] + values[i]);
            let m = entries_map(entries, n);
            &&& forall|i: int|
                0 <= i < n && (forall|j: int| i < j < n ==> #[trigger] keys[j] != keys[i]) ==> {
                    &&& m.contains_key(#[trigger] keys[i])
                    &&& json::json_of_text(values[i]) matches Ok(v) ==> m[keys[i]] == v
                    &&& json::json_of_text(values[i]) is Err ==> m[keys[i]] == JsonView::Str(
                        values[i],
                    )
                }
            &&& forall|k: Seq<char>| #[trigger] m.contains_key(k) ==> keys.take(n as int).contains(k)
        }),
    decreases n,
{
    let entries = Seq::new(keys.len(), |i: int| keys[i] + seq!['='] + values[i]);
    if n > 0 {
        let p = (n - 1) as nat;
        lemma_entries_map(keys, values, p);
        law_entry_is_key_and_value(keys[n - 1], values[n - 1]);
        let before = entries_map(entries, p);
        let m = entries_map(entries, n);
        assert(m == before.insert(keys[n - 1], entry_value(entries[n - 1])));
        assert forall|i: int|
            0 <= i < n && (forall|j: int| i < j < n ==> #[trigger] keys[j] != keys[i]) implies {
            &&& m.contains_key(#[trigger] keys[i])
            &&& json::json_of_text(values[i]) matches Ok(v) ==> m[keys[i]] == v
            &&& json::json_of_text(values[i]) is Err ==> m[keys[i]] == JsonView::Str(values[i])
        } by {
            if i < n - 1 {
                assert(keys[n - 1] != keys[i]);
            }
        }
        assert forall|k: Seq<char>| #[trigger] m.contains_key(k) implies keys.take(
            n as int,
        ).contains(k) by {
            let head = keys.take(n as int);
            if k == keys[n - 1] {
                assert(head[n - 1] == k);
            } else {
                let i = choose|i: int| 0 <= i < p && keys.take(p as int)[i] == k;
                assert(head[i] == k);
            }
        }
    }
}

/// Entries of keys and values are sent as arguments: under each key the value of its last
/// entry, as what it reads as where it is JSON and as text where it is not; and nothing else.
pub proof fn law_entries_are_sent(
    keys: Seq<Seq<char>>,
    values: Seq<Seq<char>>,
    r: Result<Json, ArgsError>,
)
    requires
        keys.len() == values.len(),
        forall|i: int| 0 <= i < keys.len() ==> !(#[trigger] keys[i]).contains('='),
        is_args(Seq::new(keys.len(), |i: int| keys[i] + seq!['='] + values[i]), None, r),
    ensures
        r is Ok,
        r->Ok_0@ is Object,
        ({
            let m = r->Ok_0@->Object_0;
            &&& forall|i: int|
                0 <= i < keys.len() && (forall|j: int|
                    i < j < keys.len() ==> #[trigger] keys[j] != keys[i]) ==> {
                    &&& m.contains_key(#[trigger] keys[i])
                    &&& json::json_of_text(values[i]) matches Ok(v) ==> m[keys[i]] == v
                    &&& json::json_of_text(values[i]) is Err ==> m[keys[i]] == JsonView::Str(
                        values[i],
                    )
                }
            &&& forall|k: Seq<char>| #[trigger] m.contains_key(k) ==> keys.contains(k)
        }),
{
    let entries = Seq::new(keys.len(), |i: int| keys[i] + seq!['='] + values[i]);
    assert forall|i: int| 0 <= i < entries.len() implies has_equals(#[trigger] entries[i]) by {
        law_entry_is_key_and_value(keys[i], values[i]);
    }
    lemma_entries_map(keys, values, keys.len());
    assert(keys.take(keys.len() as int) == keys);
}

/// A JSON text is sent as it reads where it is an object, and is refused otherwise.
pub proof fn law_json_args_are_sent(
    entries: Seq<Seq<char>>,
    raw: Seq<char>,
    r: Result<Json, ArgsError>,
)
    requires
        is_args(entries, Some(raw), r),
    ensures
        r is Ok <==> json::json_of_text(raw) is Ok && json::json_of_text(raw)->Ok_0 is Object,
        r is Ok ==> r->Ok_0@ == json::json_of_text(raw)->Ok_0,
{
}

proof fn lemma_pairs_map(pairs: Seq<(&str, &str)>, n: nat)
    requires
        n <= pairs.len(),
    ensures
        forall|i: int|
            0 <= i < n && (forall|j: int| i < j < n ==> (#[trigger] pairs[j]).0@ != pairs[i].0@)
                ==> holds_text(pairs_map(pairs, n), (#[trigger] pairs[i]).0@, pairs[i].1@),
        forall|k: Seq<char>| #[trigger]
            pairs_map(pairs, n).contains_key(k) ==> exists|i: int|
                0 <= i < n && (#[trigger] pairs[i]).0@ == k,
    decreases n,
{
    if n > 0 {
        let p = (n - 1) as nat;
        lemma_pairs_map(pairs, p);
        let m = pairs_map(pairs, n);
        assert forall|i: int|
            0 <= i < n && (forall|j: int|
                i < j < n ==> (#[trigger] pairs[j]).0@ != pairs[i].0@) implies holds_text(
            m,
            (#[trigger] pairs[i]).0@,
            pairs[i].1@,
        ) by {
            if i < n - 1 {
                assert(pairs[n - 1].0@ != pairs[i].0@);
                assert(holds_text(pairs_map(pairs, p), pairs[i].0@, pairs[i].1@));
            }
        }
        assert forall|k: Seq<char>| #[trigger] m.contains_key(k) implies exists|i: int|
            0 <= i < n && (#[trigger] pairs[i]).0@ == k by {
            if k == pairs[n - 1].0@ {
                assert(pairs[n - 1].0@ == k);
            } else {
                assert(pairs_map(pairs, p).contains_key(k));
                let i = choose|i: int| 0 <= i < p && (#[trigger] pairs[i]).0@ == k;
                assert(pairs[i].0@ == k);
            }
        }
    }
}

/// Pairs of texts are sent as arguments: under each name the text of its last pair, whatever it
/// reads as; and nothing else.
pub proof fn law_pairs_are_sent_as_texts(pairs: Seq<(&str, &str)>, i: int)
    requires
        0 <= i < pairs.len(),
        forall|j: int| i < j < pairs.len() ==> (#[trigger] pairs[j]).0@ != pairs[i].0@,
    ensures
        holds_text(pairs_map(pairs, pairs.len()), pairs[i].0@, pairs[i].1@),
        forall|k: Seq<char>| #[trigger]
            pairs_map(pairs, pairs.len()).contains_key(k) ==> exists|j: int|
                0 <= j < pairs.len() && (#[trigger] pairs[j]).0@ == k,
{
    lemma_pairs_map(pairs, pairs.len());
}

/// A call is of the tool that is named, with all of the arguments.
pub proof fn law_call_is_of_the_tool(
    call: ToolCall,
    tool: Seq<char>,
    args: Map<Seq<char>, JsonView>,
    key: Seq<char>,
)
    requires
        call.calls(tool, args),
    ensures
        call.tool@ == tool,
        args.contains_key(key) ==> call.args@.field(key) == Some(args[key]),
        !args.contains_key(key) ==> call.args@.field(key) is None,
{
}

} // verus!
