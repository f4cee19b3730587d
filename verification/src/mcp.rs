//! The client side of the Model Context Protocol over HTTP.
//!
//! [`McpClient`] makes the requests and takes the answers; carrying both over the network is
//! the caller's part. An answer comes either as one JSON value or as a stream of events,
//! which [`SseReader`] puts together.

use vstd::prelude::*;

use crate::json;
use crate::json::{Json, JsonMap, JsonView};
use crate::text;

verus! {

/// The version of the protocol.
pub const MCP_PROTOCOL_VERSION: &'static str = "2025-03-26";

/// The name by which the client introduces itself.
pub const CLIENT_NAME: &'static str = "inderes-cli";

/// The header that carries the session.
pub const SESSION_HEADER: &'static str = "Mcp-Session-Id";

/// The header that carries the version of the protocol.
pub const PROTOCOL_HEADER: &'static str = "MCP-Protocol-Version";

// --- requests ---------------------------------------------------------------------------

/// A request as it goes over the wire.
#[derive(Debug)]
pub struct HttpRequest {
    pub url: String,
    /// The token that authorizes it.
    pub bearer: String,
    /// The other headers.
    pub headers: Vec<(String, String)>,
    /// The body, where it has one.
    pub body: Option<Json>,
}

/// The headers by name and value.
pub open spec fn headers_view(headers: Seq<(String, String)>) -> Seq<(Seq<char>, Seq<char>)> {
    headers.map_values(|h: (String, String)| (h.0@, h.1@))
}

/// A JSON-RPC request.
pub open spec fn request_value(id: int, method: Seq<char>, params: JsonView) -> JsonView {
    JsonView::Object(
        Map::<Seq<char>, JsonView>::empty().insert("jsonrpc"@, JsonView::Str("2.0"@)).insert(
            "id"@,
            JsonView::Int(id),
        ).insert("method"@, JsonView::Str(method)).insert("params"@, params),
    )
}

/// A JSON-RPC notification, to which there is no answer.
pub open spec fn notification_value(method: Seq<char>, params: JsonView) -> JsonView {
    JsonView::Object(
        Map::<Seq<char>, JsonView>::empty().insert("jsonrpc"@, JsonView::Str("2.0"@)).insert(
            "method"@,
            JsonView::Str(method),
        ).insert("params"@, params),
    )
}

/// The headers of a message: what is sent, what is understood, and the session where there
/// is one.
pub open spec fn message_headers(session: Option<Seq<char>>) -> Seq<(Seq<char>, Seq<char>)> {
    let fixed = seq![
        ("Accept"@, "application/json, text/event-stream"@),
        ("Content-Type"@, "application/json"@),
        (PROTOCOL_HEADER@, MCP_PROTOCOL_VERSION@),
    ];
    match session {
        Some(s) => fixed.push((SESSION_HEADER@, s)),
        None => fixed,
    }
}

/// What the client says of itself when it begins.
pub open spec fn initialize_params(version: Seq<char>) -> JsonView {
    JsonView::Object(
        Map::<Seq<char>, JsonView>::empty().insert(
            "protocolVersion"@,
            JsonView::Str(MCP_PROTOCOL_VERSION@),
        ).insert("capabilities"@, JsonView::Object(Map::empty())).insert(
            "clientInfo"@,
            JsonView::Object(
                Map::<Seq<char>, JsonView>::empty().insert(
                    "name"@,
                    JsonView::Str(CLIENT_NAME@),
                ).insert("version"@, JsonView::Str(version)),
            ),
        ),
    )
}

/// What is said in a call of a tool.
pub open spec fn call_params(name: Seq<char>, arguments: JsonView) -> JsonView {
    JsonView::Object(
        Map::<Seq<char>, JsonView>::empty().insert("name"@, JsonView::Str(name)).insert(
            "arguments"@,
            arguments,
        ),
    )
}

/// A client of one server.
#[derive(Debug)]
pub struct McpClient {
    endpoint: String,
    access_token: String,
    session_id: Option<String>,
    next_id: i64,
}

impl McpClient {
    /// Where the server is.
    pub closed spec fn endpoint(&self) -> Seq<char> {
        self.endpoint@
    }

    /// The token that authorizes the requests.
    pub closed spec fn token(&self) -> Seq<char> {
        self.access_token@
    }

    /// The session that the server opened.
    pub closed spec fn session(&self) -> Option<Seq<char>> {
        text::seen_string(self.session_id)
    }

    /// The number of the next request.
    pub closed spec fn next(&self) -> int {
        self.next_id as int
    }

    /// Whether the client talks to the same server with the same token as another.
    pub open spec fn same_server(&self, other: &McpClient) -> bool {
        self.endpoint() == other.endpoint() && self.token() == other.token()
    }

    /// Whether `request` carries `body` to the server, in the session of this client.
    pub open spec fn carries(&self, request: HttpRequest, body: JsonView) -> bool {
        &&& request.url@ == self.endpoint()
        &&& request.bearer@ == self.token()
        &&& headers_view(request.headers@) == message_headers(self.session())
        &&& request.body matches Some(b) && b@ == body
    }

    /// A client that has not talked to its server yet.
    pub fn new(endpoint: &str, access_token: &str) -> (r: McpClient)
        ensures
            r.endpoint() == endpoint@,
            r.token() == access_token@,
            r.session() is None,
            r.next() == 1,
    {
        McpClient {
            endpoint: endpoint.to_owned(),
            access_token: access_token.to_owned(),
            session_id: None,
            next_id: 1,
        }
    }

    /// Whether there is a number left for another request.
    pub fn can_request(&self) -> (r: bool)
        ensures
            r == (self.next() < i64::MAX),
    {
        self.next_id < i64::MAX
    }

    /// A message to the server.
    fn post(&self, body: Json) -> (r: HttpRequest)
        ensures
            self.carries(r, body@),
    {
        let mut headers: Vec<(String, String)> = Vec::new();
        headers.push(("Accept".to_owned(), "application/json, text/event-stream".to_owned()));
        headers.push(("Content-Type".to_owned(), "application/json".to_owned()));
        headers.push((PROTOCOL_HEADER.to_owned(), MCP_PROTOCOL_VERSION.to_owned()));
        if let Some(sid) = &self.session_id {
            headers.push((SESSION_HEADER.to_owned(), sid.clone()));
        }
        assert(headers_view(headers@) =~= message_headers(self.session()));
        HttpRequest {
            url: self.endpoint.clone(),
            bearer: self.access_token.clone(),
            headers,
            body: Some(body),
        }
    }

    /// A request, with the number that its answer will carry. Numbers are given in order,
    /// and none twice.
    pub fn request(&mut self, method: &str, params: Json) -> (r: (i64, HttpRequest))
        requires
            old(self).next() < i64::MAX,
        ensures
            r.0 == old(self).next(),
            final(self).next() == old(self).next() + 1,
            final(self).session() == old(self).session(),
            final(self).same_server(old(self)),
            old(self).carries(r.1, request_value(r.0 as int, method@, params@)),
    {
        let id = self.next_id;
        self.next_id = id + 1;
        let mut body = JsonMap::new();
        body.insert("jsonrpc", Json::text("2.0"));
        body.insert("id", Json::Int(id));
        body.insert("method", Json::text(method));
        body.insert("params", params);
        (id, self.post(Json::Object(body)))
    }

    /// A notification.
    pub fn notify(&self, method: &str, params: Json) -> (r: HttpRequest)
        ensures
            self.carries(r, notification_value(method@, params@)),
    {
        let mut body = JsonMap::new();
        body.insert("jsonrpc", Json::text("2.0"));
        body.insert("method", Json::text(method));
        body.insert("params", params);
        self.post(Json::Object(body))
    }

    /// The request with which everything begins.
    pub fn initialize(&mut self, version: &str) -> (r: (i64, HttpRequest))
        requires
            old(self).next() < i64::MAX,
        ensures
            r.0 == old(self).next(),
            final(self).next() == old(self).next() + 1,
            final(self).session() == old(self).session(),
            final(self).same_server(old(self)),
            old(self).carries(
                r.1,
                request_value(r.0 as int, "initialize"@, initialize_params(version@)),
            ),
    {
        let mut info = JsonMap::new();
        info.insert("name", Json::text(CLIENT_NAME));
        info.insert("version", Json::text(version));
        let mut params = JsonMap::new();
        params.insert("protocolVersion", Json::text(MCP_PROTOCOL_VERSION));
        params.insert("capabilities", Json::Object(JsonMap::new()));
        params.insert("clientInfo", Json::Object(info));
        self.request("initialize", Json::Object(params))
    }

    /// The notification that follows the answer to the first request.
    pub fn initialized(&self) -> (r: HttpRequest)
        ensures
            self.carries(
                r,
                notification_value("notifications/initialized"@, JsonView::Object(Map::empty())),
            ),
    {
        self.notify("notifications/initialized", Json::Object(JsonMap::new()))
    }

    /// The request that calls a tool.
    pub fn call_tool(&mut self, name: &str, arguments: Json) -> (r: (i64, HttpRequest))
        requires
            old(self).next() < i64::MAX,
        ensures
            r.0 == old(self).next(),
            final(self).next() == old(self).next() + 1,
            final(self).session() == old(self).session(),
            final(self).same_server(old(self)),
            old(self).carries(
                r.1,
                request_value(r.0 as int, "tools/call"@, call_params(name@, arguments@)),
            ),
    {
        let mut params = JsonMap::new();
        params.insert("name", Json::text(name));
        params.insert("arguments", arguments);
        self.request("tools/call", Json::Object(params))
    }

    /// The request that asks which tools there are.
    pub fn list_tools(&mut self) -> (r: (i64, HttpRequest))
        requires
            old(self).next() < i64::MAX,
        ensures
            r.0 == old(self).next(),
            final(self).next() == old(self).next() + 1,
            final(self).session() == old(self).session(),
            final(self).same_server(old(self)),
            old(self).carries(
                r.1,
                request_value(r.0 as int, "tools/list"@, JsonView::Object(Map::empty())),
            ),
    {
        self.request("tools/list", Json::Object(JsonMap::new()))
    }

    /// The request that closes the session, where there is one. The client forgets it.
    pub fn close(&mut self) -> (r: Option<HttpRequest>)
        ensures
            final(self).session() is None,
            final(self).next() == old(self).next(),
            final(self).same_server(old(self)),
            match old(self).session() {
                None => r is None,
                Some(sid) => r matches Some(request) && request.url@ == old(self).endpoint()
                    && request.bearer@ == old(self).token() && headers_view(request.headers@)
                    == seq![(SESSION_HEADER@, sid)] && request.body is None,
            },
    {
        let sid = self.session_id.take();
        match sid {
            None => None,
            Some(sid) => {
                let mut headers: Vec<(String, String)> = Vec::new();
                headers.push((SESSION_HEADER.to_owned(), sid));
                assert(headers_view(headers@) =~= seq![(SESSION_HEADER@, sid@)]);
                Some(
                    HttpRequest {
                        url: self.endpoint.clone(),
                        bearer: self.access_token.clone(),
                        headers,
                        body: None,
                    },
                )
            },
        }
    }

    /// Takes the head of an answer: keeps the session that the server gives, and says what
    /// to do with the body.
    pub fn answer(&mut self, status: u16, session: Option<&str>, content_type: &str) -> (r: Answer)
        ensures
            final(self).session() == (match session {
                Some(s) => Some(s@),
                None => old(self).session(),
            }),
            final(self).next() == old(self).next(),
            final(self).same_server(old(self)),
            r == answer_kind(status, content_type@),
    {
        if let Some(sid) = session {
            self.session_id = Some(sid.to_owned());
        }
        if !is_success(status) {
            Answer::Refused
        } else if text::starts_with(content_type, "text/event-stream") {
            Answer::Stream
        } else {
            Answer::Whole
        }
    }
}

// --- answers ----------------------------------------------------------------------------

/// What to do with the body of an answer.
#[derive(Clone, Copy, Debug, PartialEq, Eq, Structural)]
pub enum Answer {
    /// The request was refused; the body says why.
    Refused,
    /// The body is a stream of events.
    Stream,
    /// The body is one JSON value.
    Whole,
}

/// Whether a status means success.
pub open spec fn success(status: u16) -> bool {
    200 <= status < 300
}

/// What to do with the body of an answer.
pub open spec fn answer_kind(status: u16, content_type: Seq<char>) -> Answer {
    if !success(status) {
        Answer::Refused
    } else if text::begins(content_type, "text/event-stream"@) {
        Answer::Stream
    } else {
        Answer::Whole
    }
}

/// Whether a status means success.
pub fn is_success(status: u16) -> (r: bool)
    ensures
        r == success(status),
{
    200 <= status && status < 300
}

/// Whether a session counts as closed: the server says so, or does not know it any more.
pub fn is_closed(status: u16) -> (r: bool)
    ensures
        r == (success(status) || status == 404),
{
    is_success(status) || status == 404
}

/// Why a request has no result.
#[derive(Debug)]
pub enum McpError {
    /// The server answered with an error.
    Server(i64, String),
    /// The answer belongs to another request: the number that was asked for, and the one
    /// that came.
    IdMismatch(i64, Option<i64>),
    /// The answer has no result; the answer is given.
    NoResult(String),
    /// The data of an event are no JSON; the data and the reason are given.
    BadData(String, String),
    /// The stream ended before the answer came.
    Ended(i64),
    /// The answer is no JSON; the reason is given.
    BadAnswer(String),
    /// The request was refused: the method, the status and what the server said.
    Refused(String, String, String),
}

/// An optional number in words.
pub open spec fn option_text(id: Option<i64>) -> Seq<char> {
    match id {
        None => "None"@,
        Some(n) => "Some("@ + text::int_text(n as int) + ")"@,
    }
}

impl McpError {
    /// The error in words.
    pub open spec fn words(&self) -> Seq<char> {
        match self {
            McpError::Server(code, message) => "MCP error "@ + text::int_text(*code as int) + ": "@
                + message@,
            McpError::IdMismatch(expected, got) => "MCP id mismatch: expected "@ + text::int_text(
                *expected as int,
            ) + ", got "@ + option_text(*got),
            McpError::NoResult(msg) => "MCP response missing `result`: "@ + msg@,
            McpError::BadData(data, why) => "parsing SSE data as JSON: "@ + data@ + ": "@ + why@,
            McpError::Ended(id) => "SSE stream ended without a response for id "@ + text::int_text(
                *id as int,
            ),
            McpError::BadAnswer(why) => {
                "parsing JSON-RPC response: error decoding response body: "@ + why@
            },
            McpError::Refused(method, status, body) => "MCP "@ + method@ + " returned "@ + status@
                + ": "@ + body@,
        }
    }

    /// The error in words.
    pub fn message(&self) -> (r: String)
        ensures
            r@ == self.words(),
    {
        let mut r = String::new();
        match self {
            McpError::Server(code, message) => {
                r = "MCP error ".to_owned();
                r.append(text::show_i64(*code).as_str());
                r.append(": ");
                r.append(message.as_str());
            },
            McpError::IdMismatch(expected, got) => {
                r = "MCP id mismatch: expected ".to_owned();
                r.append(text::show_i64(*expected).as_str());
                r.append(", got ");
                r.append(show_option(*got).as_str());
            },
            McpError::NoResult(msg) => {
                r = "MCP response missing `result`: ".to_owned();
                r.append(msg.as_str());
            },
            McpError::BadData(data, why) => {
                r = "parsing SSE data as JSON: ".to_owned();
                r.append(data.as_str());
                r.append(": ");
                r.append(why.as_str());
            },
            McpError::Ended(id) => {
                r = "SSE stream ended without a response for id ".to_owned();
                r.append(text::show_i64(*id).as_str());
            },
            McpError::BadAnswer(why) => {
                r = "parsing JSON-RPC response: error decoding response body: ".to_owned();
                r.append(why.as_str());
            },
            McpError::Refused(method, status, body) => {
                r = "MCP ".to_owned();
                r.append(method.as_str());
                r.append(" returned ");
                r.append(status.as_str());
                r.append(": ");
                r.append(body.as_str());
            },
        }
        r
    }
}

/// An optional number in words.
fn show_option(id: Option<i64>) -> (r: String)
    ensures
        r@ == option_text(id),
{
    match id {
        None => "None".to_owned(),
        Some(n) => {
            let mut r = "Some(".to_owned();
            r.append(text::show_i64(n).as_str());
            r.append(")");
            r
        },
    }
}

/// Whether `r` is what an answer says to the request with the number `expected`: an error of
/// the server goes first, then the number must be right, then there must be a result.
pub open spec fn is_result(msg: JsonView, expected: i64, r: Result<Json, McpError>) -> bool {
    match msg.field("error"@) {
        Some(err) => r matches Err(McpError::Server(code, message)) && code == text::or_zero(
            err.int_field("code"@),
        ) && message@ == text::or_text(err.text_field("message"@), ""@),
        None => if msg.int_field("id"@) != Some(expected as int) {
            r matches Err(McpError::IdMismatch(e, got)) && e == expected && json::seen_int(got)
                == msg.int_field("id"@)
        } else {
            match msg.field("result"@) {
                Some(v) => r matches Ok(w) && w@ == v,
                None => r matches Err(McpError::NoResult(t)) && t@ == json::text_of_json(msg),
            }
        },
    }
}

/// The result in an answer.
pub fn extract_result(msg: &Json, expected_id: i64) -> (r: Result<Json, McpError>)
    ensures
        is_result(msg@, expected_id, r),
{
    if let Some(err) = msg.get("error") {
        let code: i64 = match err.get_i64("code") {
            Some(c) => c,
            None => 0,
        };
        let message = match err.get_str("message") {
            Some(m) => m,
            None => "",
        };
        return Err(McpError::Server(code, message.to_owned()));
    }
    let id = msg.get_i64("id");
    let matches = match id {
        Some(n) => n == expected_id,
        None => false,
    };
    if !matches {
        return Err(McpError::IdMismatch(expected_id, id));
    }
    match msg.get("result") {
        Some(v) => Ok(v.copy()),
        None => Err(McpError::NoResult(msg.to_text())),
    }
}

/// Whether `r` is what a whole answer says to the request with the number `expected`.
pub open spec fn is_whole_result(body: Seq<char>, expected: i64, r: Result<Json, McpError>) -> bool {
    match json::json_of_text(body) {
        Ok(msg) => is_result(msg, expected, r),
        Err(why) => r matches Err(McpError::BadAnswer(e)) && e@ == why,
    }
}

/// The result in an answer that came whole.
pub fn read_answer(body: &str, expected_id: i64) -> (r: Result<Json, McpError>)
    ensures
        is_whole_result(body@, expected_id, r),
{
    match Json::parse(body) {
        Ok(msg) => extract_result(&msg, expected_id),
        Err(why) => Err(McpError::BadAnswer(why)),
    }
}

// --- events -----------------------------------------------------------------------------

/// Where the first event of a text ends: behind the first blank line, in either way of
/// ending lines.
pub open spec fn boundary(s: Seq<char>) -> Option<int> {
    match (text::found(s, "\r\n\r\n"@), text::found(s, "\n\n"@)) {
        (Some(i), Some(j)) => if j < i {
            Some(j + 2)
        } else {
            Some(i + 4)
        },
        (Some(i), None) => Some(i + 4),
        (None, Some(j)) => Some(j + 2),
        (None, None) => None,
    }
}

/// The data of one line of an event, where it is a line of data.
pub open spec fn line_data(line: Seq<char>) -> Option<Seq<char>> {
    if text::begins(line, "data:"@) {
        let rest = line.skip(5);
        if text::begins(rest, " "@) {
            Some(rest.skip(1))
        } else {
            Some(rest)
        }
    } else {
        None
    }
}

/// The data of the lines of an event that are lines of data.
pub open spec fn lines_data(lines: Seq<Seq<char>>) -> Seq<Seq<char>>
    decreases lines.len(),
{
    if lines.len() == 0 {
        seq![]
    } else {
        match line_data(lines.last()) {
            Some(d) => lines_data(lines.drop_last()).push(d),
            None => lines_data(lines.drop_last()),
        }
    }
}

/// The data of an event, where it has any: its lines of data, one below the other.
pub open spec fn event_data(event: Seq<char>) -> Option<Seq<char>> {
    let data = lines_data(text::text_lines(event));
    if data.len() == 0 {
        None
    } else {
        Some(text::joined(data, "\n"@))
    }
}

proof fn lemma_found_from(s: Seq<char>, pat: Seq<char>, i: int)
    ensures
        match text::found_from(s, pat, i) {
            Some(k) => i <= k && text::at(s, pat, k),
            None => true,
        },
    decreases s.len() + 1 - i,
{
    if 0 <= i && i + pat.len() <= s.len() && !text::at(s, pat, i) {
        lemma_found_from(s, pat, i + 1);
    }
}

/// An event ends within the text, and takes up some of it.
pub proof fn lemma_boundary(s: Seq<char>)
    ensures
        match boundary(s) {
            Some(k) => 2 <= k <= s.len(),
            None => true,
        },
{
    reveal_strlit("\r\n\r\n");
    reveal_strlit("\n\n");
    lemma_found_from(s, "\r\n\r\n"@, 0);
    lemma_found_from(s, "\n\n"@, 0);
}

/// Where the first event of a text ends, in characters.
fn find_boundary(v: &Vec<char>) -> (r: Option<usize>)
    ensures
        match r {
            Some(k) => boundary(v@) == Some(k as int) && 2 <= k <= v@.len(),
            None => boundary(v@) is None,
        },
{
    proof {
        lemma_boundary(v@);
        lemma_found_from(v@, "\r\n\r\n"@, 0);
        lemma_found_from(v@, "\n\n"@, 0);
        reveal_strlit("\r\n\r\n");
        reveal_strlit("\n\n");
    }
    let crlf = text::find(v, &text::chars_of("\r\n\r\n"));
    let lf = text::find(v, &text::chars_of("\n\n"));
    assert(v@.len() == v.len());
    match (crlf, lf) {
        (Some(i), Some(j)) => if j < i {
            Some(j + 2)
        } else {
            Some(i + 4)
        },
        (Some(i), None) => Some(i + 4),
        (None, Some(j)) => Some(j + 2),
        (None, None) => None,
    }
}

/// Where the first event of a text ends, in bytes.
pub fn find_event_boundary(buf: &str) -> (r: Option<usize>)
    ensures
        match r {
            Some(n) => boundary(buf@) is Some && n == vstd::utf8::encode_utf8(
                buf@.take(boundary(buf@)->0),
            ).len(),
            None => boundary(buf@) is None,
        },
{
    let v = text::chars_of(buf);
    match find_boundary(&v) {
        None => None,
        Some(k) => {
            let event = text::slice(&v, 0, k);
            assert(event@ == buf@.take(k as int));
            Some(event.as_str().as_bytes().len())
        },
    }
}

/// Whether `r` is the message that an event carries, where it carries data.
pub open spec fn is_message(event: Seq<char>, r: Result<Option<Json>, McpError>) -> bool {
    match event_data(event) {
        None => r matches Ok(None),
        Some(data) => match json::json_of_text(data) {
            Ok(v) => r matches Ok(Some(w)) && w@ == v,
            Err(why) => r matches Err(McpError::BadData(d, e)) && d@ == data && e@ == why,
        },
    }
}

/// The message that an event carries.
pub fn parse_sse_event(event: &str) -> (r: Result<Option<Json>, McpError>)
    ensures
        is_message(event@, r),
{
    let lines = text::lines(event);
    let ghost all = text::texts(lines@);
    let mut data: Vec<String> = Vec::new();
    let mut i: usize = 0;
    proof {
        reveal_strlit("data:");
        reveal_strlit(" ");
    }
    while i < lines.len()
        invariant
            i <= lines@.len(),
            all == text::texts(lines@),
            text::texts(data@) == lines_data(all.take(i as int)),
            "data:"@.len() == 5,
            " "@.len() == 1,
        decreases lines@.len() - i,
    {
        let ghost before = data@;
        assert(all.take(i + 1).drop_last() == all.take(i as int));
        assert(all.take(i + 1).last() == lines@[i as int]@);
        if let Some(rest) = text::strip_prefix(lines[i].as_str(), "data:") {
            let d = match text::strip_prefix(rest.as_str(), " ") {
                Some(d) => d,
                None => rest,
            };
            data.push(d);
            assert(text::texts(data@) == text::texts(before).push(d@));
        }
        i += 1;
    }
    assert(all.take(i as int) == all);
    if data.len() == 0 {
        assert(text::texts(data@).len() == 0);
        return Ok(None);
    }
    assert(text::texts(data@).len() == data@.len());
    let joined = text::join(&data, "\n");
    match Json::parse(joined.as_str()) {
        Ok(v) => Ok(Some(v)),
        Err(why) => Err(McpError::BadData(joined, why)),
    }
}

/// Where a reader stands after it looked at what came.
pub enum ReadView {
    /// The answer has not come; this is left to look at.
    More(Seq<char>),
    /// The answer came.
    Answer(JsonView),
    /// The data of an event are no JSON; the data and the reason are given.
    Bad(Seq<char>, Seq<char>),
}

/// What is left behind the first event, which ends at `k`.
pub open spec fn after_event(buf: Seq<char>, k: int) -> Seq<char> {
    text::cut_start(buf.skip(k), text::Class::LineEnd)
}

/// Cutting makes nothing longer.
pub proof fn lemma_cut_start_shortens(s: Seq<char>, class: text::Class)
    ensures
        text::cut_start(s, class).len() <= s.len(),
    decreases s.len(),
{
    if s.len() > 0 && class.has(s[0]) {
        lemma_cut_start_shortens(s.skip(1), class);
    }
}

/// Where the reader stands after it looked at `buf` for the answer to the request `id`. An
/// event without data, a notification and an answer to another request are passed over.
pub open spec fn read_buffer(buf: Seq<char>, id: int) -> ReadView
    decreases buf.len(),
{
    match boundary(buf) {
        None => ReadView::More(buf),
        Some(k) => {
            proof {
                lemma_boundary(buf);
                lemma_cut_start_shortens(buf.skip(k), text::Class::LineEnd);
            }
            match event_data(buf.take(k)) {
                None => read_buffer(after_event(buf, k), id),
                Some(data) => match json::json_of_text(data) {
                    Err(why) => ReadView::Bad(data, why),
                    Ok(msg) => if msg.int_field("id"@) == Some(id) {
                        ReadView::Answer(msg)
                    } else {
                        read_buffer(after_event(buf, k), id)
                    },
                },
            }
        },
    }
}

/// What `String::from_utf8_lossy` makes of bytes.
pub uninterp spec fn lossy_text(bytes: Seq<u8>) -> Seq<char>;

/// `String::from_utf8_lossy`: bytes that are UTF-8 give the text that they encode; what is
/// not is replaced.
#[verifier::external_body]
pub(crate) fn lossy(bytes: &[u8]) -> (r: String)
    ensures
        r@ == lossy_text(bytes@),
        vstd::utf8::valid_utf8(bytes@) ==> r@ == vstd::utf8::decode_utf8(bytes@),
{
    String::from_utf8_lossy(bytes).into_owned()
}

/// How a stream goes on.
#[derive(Debug)]
pub enum SseStep {
    /// The answer has not come.
    More,
    /// The request is answered, with a result or with an error.
    Finished(Result<Json, McpError>),
}

/// Reads the answer to one request out of a stream of events.
#[derive(Debug)]
pub struct SseReader {
    buf: String,
    expected_id: i64,
}

impl SseReader {
    /// What came and is not looked at.
    pub closed spec fn pending(&self) -> Seq<char> {
        self.buf@
    }

    /// The number of the request.
    pub closed spec fn id(&self) -> int {
        self.expected_id as int
    }

    /// A reader for the answer to the request with the number.
    pub fn new(expected_id: i64) -> (r: SseReader)
        ensures
            r.pending() == Seq::<char>::empty(),
            r.id() == expected_id,
    {
        SseReader { buf: String::new(), expected_id }
    }

    /// Takes a piece of the stream.
    pub fn push(&mut self, chunk: &[u8]) -> (r: SseStep)
        ensures
            final(self).id() == old(self).id(),
            match read_buffer(old(self).pending() + lossy_text(chunk@), old(self).id()) {
                ReadView::More(rest) => r is More && final(self).pending() == rest,
                ReadView::Answer(msg) => r matches SseStep::Finished(result) && is_result(
                    msg,
                    old(self).id() as i64,
                    result,
                ),
                ReadView::Bad(data, why) => r matches SseStep::Finished(
                    Err(McpError::BadData(d, e)),
                ) && d@ == data && e@ == why,
            },
    {
        let piece = lossy(chunk);
        let mut buf = self.buf.clone();
        buf.append(piece.as_str());
        let ghost whole = buf@;
        let id = self.expected_id;
        let mut v = text::chars_of(buf.as_str());
        loop
            invariant
                id == self.expected_id,
                self.expected_id == old(self).expected_id,
                whole == old(self).buf@ + lossy_text(chunk@),
                read_buffer(v@, id as int) == read_buffer(whole, id as int),
            decreases v@.len(),
        {
            let k = match find_boundary(&v) {
                None => {
                    self.buf = text::string_of(&v);
                    return SseStep::More;
                },
                Some(k) => k,
            };
            let event = text::slice(&v, 0, k);
            let rest = text::slice(&v, k, v.len());
            assert(event@ == v@.take(k as int));
            assert(rest@ == v@.skip(k as int));
            let cut = text::trim_start(rest.as_str(), text::Class::LineEnd);
            proof {
                lemma_cut_start_shortens(rest@, text::Class::LineEnd);
            }
            match parse_sse_event(event.as_str()) {
                Err(e) => {
                    return SseStep::Finished(Err(e));
                },
                Ok(None) => {},
                Ok(Some(msg)) => {
                    if let Some(n) = msg.get_i64("id") {
                        if n == id {
                            return SseStep::Finished(extract_result(&msg, id));
                        }
                    }
                },
            }
            v = text::chars_of(cut.as_str());
        }
    }

    /// The error where the stream ends before the answer came.
    pub fn end(&self) -> (r: McpError)
        ensures
            r matches McpError::Ended(id) && id == self.id(),
    {
        McpError::Ended(self.expected_id)
    }
}

// --- laws -------------------------------------------------------------------------------

/// A result comes only out of an answer that carries the number of the request, holds that
/// result, and holds no error.
pub proof fn law_result_answers_the_request(msg: JsonView, expected: i64, r: Result<Json, McpError>)
    requires
        is_result(msg, expected, r),
        r is Ok,
    ensures
        msg.int_field("id"@) == Some(expected as int),
        msg.field("result"@) == Some(r->Ok_0@),
        msg.field("error"@) is None,
{
}

/// An event without data, a notification, and an answer to another request make no
/// difference: reading goes on behind them.
pub proof fn law_other_events_are_passed_over(buf: Seq<char>, id: int)
    requires
        boundary(buf) is Some,
        match event_data(buf.take(boundary(buf)->0)) {
            None => true,
            Some(data) => json::json_of_text(data) matches Ok(msg) && msg.int_field("id"@) != Some(
                id,
            ),
        },
    ensures
        read_buffer(buf, id) == read_buffer(after_event(buf, boundary(buf)->0), id),
{
}

/// As long as the answer has not come, what is left to look at holds no whole event.
pub proof fn law_nothing_whole_is_left(buf: Seq<char>, id: int)
    ensures
        match read_buffer(buf, id) {
            ReadView::More(rest) => boundary(rest) is None,
            _ => true,
        },
    decreases buf.len(),
{
    if let Some(k) = boundary(buf) {
        lemma_boundary(buf);
        lemma_cut_start_shortens(buf.skip(k), text::Class::LineEnd);
        law_nothing_whole_is_left(after_event(buf, k), id);
    }
}

proof fn lemma_found_stays(s: Seq<char>, t: Seq<char>, pat: Seq<char>, i: int)
    requires
        text::found_from(s, pat, i) is Some,
    ensures
        text::found_from(s + t, pat, i) == text::found_from(s, pat, i),
    decreases s.len() + 1 - i,
{
    assert((s + t).subrange(i, i + pat.len()) == s.subrange(i, i + pat.len()));
    if !text::at(s, pat, i) {
        lemma_found_stays(s, t, pat, i + 1);
    }
}

proof fn lemma_found_late(s: Seq<char>, t: Seq<char>, pat: Seq<char>, i: int)
    requires
        0 <= i,
        text::found_from(s, pat, i) is None,
    ensures
        text::found_from(s + t, pat, i) matches Some(k) ==> k + pat.len() > s.len(),
    decreases s.len() + 1 - i,
{
    if i + pat.len() <= s.len() {
        assert((s + t).subrange(i, i + pat.len()) == s.subrange(i, i + pat.len()));
        lemma_found_late(s, t, pat, i + 1);
    } else {
        lemma_found_from(s + t, pat, i);
    }
}

/// Where the first event ends does not depend on what comes behind it.
pub proof fn law_event_end_is_final(a: Seq<char>, b: Seq<char>)
    requires
        boundary(a) is Some,
    ensures
        boundary(a + b) == boundary(a),
{
    let crlf = "\r\n\r\n"@;
    let lf = "\n\n"@;
    reveal_strlit("\r\n\r\n");
    reveal_strlit("\n\n");
    lemma_found_from(a, crlf, 0);
    lemma_found_from(a, lf, 0);
    lemma_found_from(a + b, crlf, 0);
    lemma_found_from(a + b, lf, 0);
    match (text::found(a, crlf), text::found(a, lf)) {
        (Some(i), Some(j)) => {
            lemma_found_stays(a, b, crlf, 0);
            lemma_found_stays(a, b, lf, 0);
        },
        (Some(i), None) => {
            lemma_found_stays(a, b, crlf, 0);
            lemma_found_late(a, b, lf, 0);
        },
        (None, Some(j)) => {
            lemma_found_stays(a, b, lf, 0);
            lemma_found_late(a, b, crlf, 0);
            if let Some(i) = text::found(a + b, crlf) {
                let whole = a + b;
                assert(whole[j] == whole.subrange(j, j + 2)[0]);
                assert(whole[j + 1] == whole.subrange(j, j + 2)[1]);
                assert(whole[i] == whole.subrange(i, i + 4)[0]);
                assert(whole[i + 2] == whole.subrange(i, i + 4)[2]);
                assert(i != j && i != j - 1);
            }
        },
        (None, None) => {},
    }
}

proof fn lemma_cut_start_of_sum(x: Seq<char>, b: Seq<char>, class: text::Class)
    ensures
        text::cut_start(x + b, class) == (if text::cut_start(x, class).len() > 0 {
            text::cut_start(x, class) + b
        } else {
            text::cut_start(b, class)
        }),
    decreases x.len(),
{
    if x.len() == 0 {
        assert(x + b == b);
    } else if class.has(x[0]) {
        assert((x + b).skip(1) == x.skip(1) + b);
        lemma_cut_start_of_sum(x.skip(1), b, class);
    }
}

proof fn lemma_reading_goes_on(a: Seq<char>, b: Seq<char>, id: int)
    ensures
        match read_buffer(a, id) {
            ReadView::More(rest) => read_buffer(a + b, id) == read_buffer(
                if rest.len() == 0 && a.len() > 0 {
                    text::cut_start(b, text::Class::LineEnd)
                } else {
                    rest + b
                },
                id,
            ),
            done => read_buffer(a + b, id) == done,
        },
    decreases a.len(),
{
    if let Some(k) = boundary(a) {
        let after = after_event(a, k);
        lemma_boundary(a);
        lemma_cut_start_shortens(a.skip(k), text::Class::LineEnd);
        law_event_end_is_final(a, b);
        assert((a + b).take(k) == a.take(k));
        assert((a + b).skip(k) == a.skip(k) + b);
        lemma_cut_start_of_sum(a.skip(k), b, text::Class::LineEnd);
        if after.len() > 0 {
            lemma_reading_goes_on(after, b, id);
        } else {
            assert(boundary(after) is None) by {
                lemma_boundary(after);
            }
        }
    }
}

/// Once the request is answered, nothing that comes later changes the answer.
pub proof fn law_answer_is_final(a: Seq<char>, b: Seq<char>, id: int)
    requires
        !(read_buffer(a, id) is More),
    ensures
        read_buffer(a + b, id) == read_buffer(a, id),
{
    lemma_reading_goes_on(a, b, id);
}

/// Pieces add up: where something was left, or nothing came before, reading goes on from there
/// as if everything had come at once. Where events came and nothing was left, line ends at the
/// beginning of the next piece belong to the last of them.
pub proof fn law_pieces_add_up(a: Seq<char>, b: Seq<char>, id: int)
    requires
        read_buffer(a, id) is More,
    ensures
        ({
            let rest = read_buffer(a, id)->More_0;
            read_buffer(a + b, id) == read_buffer(
                if rest.len() == 0 && a.len() > 0 {
                    text::cut_start(b, text::Class::LineEnd)
                } else {
                    rest + b
                },
                id,
            )
        }),
{
    lemma_reading_goes_on(a, b, id);
}

/// Where a reader stands after it took the pieces one after the other. What comes after the
/// answer makes no difference.
pub open spec fn read_pieces(pieces: Seq<Seq<char>>, id: int) -> ReadView
    decreases pieces.len(),
{
    if pieces.len() == 0 {
        ReadView::More(seq![])
    } else {
        match read_pieces(pieces.drop_last(), id) {
            ReadView::More(rest) => read_buffer(rest + pieces.last(), id),
            done => done,
        }
    }
}

/// The stream that pieces make.
pub open spec fn stream_of(pieces: Seq<Seq<char>>) -> Seq<char>
    decreases pieces.len(),
{
    if pieces.len() == 0 {
        seq![]
    } else {
        stream_of(pieces.drop_last()) + pieces.last()
    }
}

/// Whether every carriage return that something follows is followed by a line feed.
pub open spec fn no_lone_return(s: Seq<char>) -> bool {
    forall|i: int| 0 <= i < s.len() - 1 && #[trigger] s[i] == '\r' ==> s[i + 1] == '\n'
}

/// Whether two readers stand at the same place: they have the same answer, or both have none
/// and what is left differs in line ends at its beginning at most.
pub open spec fn same_reading(a: ReadView, b: ReadView) -> bool {
    match (a, b) {
        (ReadView::More(x), ReadView::More(y)) => text::cut_start(x, text::Class::LineEnd)
            == text::cut_start(y, text::Class::LineEnd),
        _ => a == b,
    }
}

spec fn ends_with(s: Seq<char>, tail: Seq<char>) -> bool {
    tail.len() <= s.len() && s.skip(s.len() - tail.len()) == tail
}

spec fn line_ends(s: Seq<char>) -> bool {
    forall|i: int| 0 <= i < s.len() ==> text::Class::LineEnd.has(#[trigger] s[i])
}

proof fn lemma_cut_start(s: Seq<char>)
    ensures
        ({
            let y = text::cut_start(s, text::Class::LineEnd);
            &&& ends_with(s, y)
            &&& line_ends(s.take(s.len() - y.len()))
            &&& y.len() > 0 ==> !text::Class::LineEnd.has(y[0])
            &&& text::cut_start(y, text::Class::LineEnd) == y
        }),
    decreases s.len(),
{
    let y = text::cut_start(s, text::Class::LineEnd);
    if s.len() > 0 && text::Class::LineEnd.has(s[0]) {
        lemma_cut_start(s.skip(1));
        let n = s.len() - y.len();
        assert(s.skip(1).skip(n - 1) == s.skip(n));
        assert forall|i: int| 0 <= i < n implies text::Class::LineEnd.has(
            #[trigger] s.take(n)[i],
        ) by {
            if i > 0 {
                assert(s.skip(1).take(n - 1)[i - 1] == s[i]);
            }
        }
    } else {
        assert(s.skip(0) == s);
    }
}

proof fn lemma_ends_with_more(s: Seq<char>, tail: Seq<char>, b: Seq<char>)
    requires
        ends_with(s, tail),
    ensures
        ends_with(s + b, tail + b),
{
    assert((s + b).skip(s.len() - tail.len()) == s.skip(s.len() - tail.len()) + b);
}

proof fn lemma_ends_with_chain(s: Seq<char>, t: Seq<char>, u: Seq<char>)
    requires
        ends_with(s, t),
        ends_with(t, u),
    ensures
        ends_with(s, u),
{
    assert(s.skip(s.len() - t.len()).skip(t.len() - u.len()) == s.skip(s.len() - u.len()));
}

proof fn lemma_no_lone_return_at_end(s: Seq<char>, tail: Seq<char>)
    requires
        no_lone_return(s),
        ends_with(s, tail),
    ensures
        no_lone_return(tail),
{
    let n = s.len() - tail.len();
    assert forall|i: int| 0 <= i < tail.len() - 1 && #[trigger] tail[i] == '\r' implies tail[i + 1]
        == '\n' by {
        assert(s.skip(n)[i] == s[n + i]);
        assert(s.skip(n)[i + 1] == s[n + i + 1]);
    }
}

proof fn lemma_rest_is_at_end(buf: Seq<char>, id: int)
    ensures
        match read_buffer(buf, id) {
            ReadView::More(rest) => ends_with(buf, rest),
            _ => true,
        },
    decreases buf.len(),
{
    match boundary(buf) {
        None => {
            assert(buf.skip(0) == buf);
        },
        Some(k) => {
            lemma_boundary(buf);
            let behind = buf.skip(k);
            lemma_cut_start(behind);
            lemma_rest_is_at_end(after_event(buf, k), id);
            assert(ends_with(buf, behind));
            lemma_ends_with_chain(buf, behind, after_event(buf, k));
            if let ReadView::More(rest) = read_buffer(after_event(buf, k), id) {
                lemma_ends_with_chain(buf, after_event(buf, k), rest);
            }
        },
    }
}

proof fn lemma_found_nowhere(s: Seq<char>, pat: Seq<char>, i: int, k: int)
    requires
        0 <= i <= k,
        text::found_from(s, pat, i) is None,
    ensures
        !text::at(s, pat, k),
    decreases k - i,
{
    if i < k && i + pat.len() <= s.len() {
        lemma_found_nowhere(s, pat, i + 1, k);
    }
}

proof fn lemma_found_behind(e: Seq<char>, y: Seq<char>, pat: Seq<char>, i: int)
    requires
        0 <= i,
        pat.len() > 0,
    ensures
        text::found_from(e + y, pat, e.len() + i) == (match text::found_from(y, pat, i) {
            Some(j) => Some(e.len() + j),
            None => None,
        }),
    decreases y.len() + 1 - i,
{
    let x = e + y;
    if i + pat.len() <= y.len() {
        assert(x.subrange(e.len() + i, e.len() + i + pat.len()) == y.subrange(i, i + pat.len()));
        if !text::at(y, pat, i) {
            lemma_found_behind(e, y, pat, i + 1);
        }
    }
}

proof fn lemma_found_past(x: Seq<char>, pat: Seq<char>, i: int, n: int)
    requires
        0 <= i <= n <= x.len(),
        forall|k: int| i <= k < n ==> !#[trigger] text::at(x, pat, k),
    ensures
        text::found_from(x, pat, i) == text::found_from(x, pat, n),
    decreases n - i,
{
    if i < n {
        assert(!text::at(x, pat, i));
        lemma_found_past(x, pat, i + 1, n);
    }
}

/// Line ends that hold no mark `pat` do not make one with a text that begins with something
/// else.
proof fn lemma_found_behind_line_ends(e: Seq<char>, y: Seq<char>, pat: Seq<char>)
    requires
        y.len() > 0,
        !text::Class::LineEnd.has(y[0]),
        pat.len() > 0,
        line_ends(pat),
        text::found(e, pat) is None,
    ensures
        text::found(e + y, pat) == (match text::found(y, pat) {
            Some(j) => Some(e.len() + j),
            None => None,
        }),
{
    let x = e + y;
    let n = e.len() as int;
    assert forall|k: int| 0 <= k < n implies !#[trigger] text::at(x, pat, k) by {
        if text::at(x, pat, k) {
            let part = x.subrange(k, k + pat.len());
            if k + pat.len() <= n {
                assert(e.subrange(k, k + pat.len()) == part);
                lemma_found_nowhere(e, pat, 0, k);
            } else {
                assert(part[n - k] == y[0]);
                assert(text::Class::LineEnd.has(pat[n - k]));
            }
        }
    }
    lemma_found_past(x, pat, 0, n);
    lemma_found_behind(e, y, pat, 0);
}

proof fn lemma_data_behind(line: Seq<char>, lines: Seq<Seq<char>>)
    requires
        line_data(line) is None,
    ensures
        lines_data(seq![line] + lines) == lines_data(lines),
    decreases lines.len(),
{
    let all = seq![line] + lines;
    if lines.len() == 0 {
        assert(all.drop_last() == lines);
        assert(all.last() == line);
    } else {
        assert(all.drop_last() == seq![line] + lines.drop_last());
        assert(all.last() == lines.last());
        lemma_data_behind(line, lines.drop_last());
    }
}

proof fn lemma_first_line_feed(s: Seq<char>, i: int)
    requires
        0 <= i < s.len(),
        s[i] == '\n',
    ensures
        text::first_at(s, '\n') <= i,
        s[text::first_at(s, '\n') as int] == '\n',
    decreases s.len(),
{
    if s[0] != '\n' {
        assert(s.skip(1)[i - 1] == s[i]);
        lemma_first_line_feed(s.skip(1), i - 1);
    }
}

/// Line ends before a text hold no data, and leave its lines as they are.
proof fn lemma_lines_behind_line_ends(e: Seq<char>, z: Seq<char>)
    requires
        line_ends(e),
        e.len() > 0 ==> e.last() == '\n',
    ensures
        lines_data(text::text_lines(e + z)) == lines_data(text::text_lines(z)),
    decreases e.len(),
{
    let s = e + z;
    if e.len() == 0 {
        assert(s == z);
    } else {
        assert(s[e.len() - 1] == '\n');
        lemma_first_line_feed(s, e.len() - 1);
        let k = text::first_at(s, '\n') as int;
        let line = text::without_return(s.take(k));
        reveal_strlit("data:");
        assert(line_data(line) is None) by {
            if text::begins(line, "data:"@) {
                assert(line.subrange(0, 5)[0] == 'd');
                assert(line[0] == e[0]);
                assert(text::Class::LineEnd.has(e[0]));
            }
        }
        let rest = e.skip(k + 1);
        assert(s.skip(k + 1) == rest + z);
        assert forall|i: int| 0 <= i < rest.len() implies text::Class::LineEnd.has(
            #[trigger] rest[i],
        ) by {
            assert(rest[i] == e[k + 1 + i]);
        }
        lemma_lines_behind_line_ends(rest, z);
        lemma_data_behind(line, text::text_lines(rest + z));
        assert(text::text_lines(s) == seq![line] + text::text_lines(rest + z));
    }
}

proof fn lemma_event_ends_in_line_feed(s: Seq<char>)
    ensures
        boundary(s) matches Some(k) ==> 2 <= k <= s.len() && s[k - 1] == '\n',
{
    reveal_strlit("\r\n\r\n");
    reveal_strlit("\n\n");
    lemma_boundary(s);
    lemma_found_from(s, "\r\n\r\n"@, 0);
    lemma_found_from(s, "\n\n"@, 0);
    if let Some(i) = text::found(s, "\r\n\r\n"@) {
        assert(s.subrange(i, i + 4)[3] == s[i + 3]);
    }
    if let Some(j) = text::found(s, "\n\n"@) {
        assert(s.subrange(j, j + 2)[1] == s[j + 1]);
    }
}

/// Line ends at the beginning of a buffer make no difference, unless a carriage return stands
/// alone before what follows them.
proof fn lemma_line_ends_make_no_difference(x: Seq<char>, id: int)
    requires
        no_lone_return(x),
    ensures
        same_reading(
            read_buffer(x, id),
            read_buffer(text::cut_start(x, text::Class::LineEnd), id),
        ),
{
    let y = text::cut_start(x, text::Class::LineEnd);
    let n = x.len() - y.len();
    let e = x.take(n);
    lemma_cut_start(x);
    assert(x == e + y);
    if n == 0 {
        assert(x == y);
    } else if let Some(k) = boundary(e) {
        law_event_end_is_final(e, y);
        lemma_event_ends_in_line_feed(e);
        let event = e.take(k);
        assert(x.take(k) == event);
        assert forall|i: int| 0 <= i < event.len() implies text::Class::LineEnd.has(
            #[trigger] event[i],
        ) by {
            assert(event[i] == e[i]);
        }
        lemma_lines_behind_line_ends(event, seq![]);
        assert(event + Seq::<char>::empty() == event);
        assert(text::text_lines(Seq::<char>::empty()) == Seq::<Seq<char>>::empty());
        assert(event_data(event) is None);
        let more = e.skip(k);
        assert(x.skip(k) == more + y);
        lemma_cut_start_of_sum(more, y, text::Class::LineEnd);
        assert(text::cut_start(more, text::Class::LineEnd).len() == 0) by {
            lemma_cut_start(more);
            let left = text::cut_start(more, text::Class::LineEnd);
            if left.len() > 0 {
                assert(left[0] == more[more.len() - left.len()]);
                assert(left[0] == e[e.len() - left.len()]);
            }
        }
        assert(after_event(x, k) == y);
    } else if y.len() == 0 {
        assert(x == e);
        assert(boundary(y) is None) by {
            lemma_boundary(y);
        }
    } else {
        reveal_strlit("\r\n\r\n");
        reveal_strlit("\n\n");
        lemma_found_behind_line_ends(e, y, "\r\n\r\n"@);
        lemma_found_behind_line_ends(e, y, "\n\n"@);
        if let Some(k) = boundary(y) {
            lemma_boundary(y);
            assert(boundary(x) == Some(n + k));
            let event = y.take(k);
            assert(x.take(n + k) == e + event);
            assert(x[n - 1] == e[n - 1] && x[n] == y[0]);
            assert(text::Class::LineEnd.has(e[n - 1]));
            assert(e.last() == '\n');
            lemma_lines_behind_line_ends(e, event);
            assert(x.skip(n + k) == y.skip(k));
        } else {
            assert(boundary(x) is None);
        }
    }
}

/// Where a stream is cut makes no difference: in a stream in which no carriage return stands
/// alone, the same answer comes, or none yet, as if the stream had come in one piece.
pub proof fn law_cuts_make_no_difference(pieces: Seq<Seq<char>>, id: int)
    requires
        no_lone_return(stream_of(pieces)),
    ensures
        same_reading(read_pieces(pieces, id), read_buffer(stream_of(pieces), id)),
        match read_pieces(pieces, id) {
            ReadView::More(rest) => exists|before: Seq<char>| stream_of(pieces) == #[trigger] (
            before + rest),
            _ => true,
        },
{
    lemma_cuts(pieces, id);
    if let ReadView::More(rest) = read_pieces(pieces, id) {
        let all = stream_of(pieces);
        let n = all.len() - rest.len();
        assert(all == all.take(n) + rest);
    }
}

proof fn lemma_cuts(pieces: Seq<Seq<char>>, id: int)
    requires
        no_lone_return(stream_of(pieces)),
    ensures
        same_reading(read_pieces(pieces, id), read_buffer(stream_of(pieces), id)),
        match read_pieces(pieces, id) {
            ReadView::More(rest) => ends_with(stream_of(pieces), rest),
            _ => true,
        },
    decreases pieces.len(),
{
    let all = stream_of(pieces);
    if pieces.len() == 0 {
        lemma_boundary(all);
        assert(all.skip(0) == all);
    } else {
        let before = stream_of(pieces.drop_last());
        let b = pieces.last();
        assert(no_lone_return(before)) by {
            assert forall|i: int| 0 <= i < before.len() - 1 && #[trigger] before[i] == '\r' implies
                before[i + 1] == '\n' by {
                assert(all[i] == before[i] && all[i + 1] == before[i + 1]);
            }
        }
        lemma_cuts(pieces.drop_last(), id);
        lemma_reading_goes_on(before, b, id);
        if let ReadView::More(p) = read_pieces(pieces.drop_last(), id) {
            let q = read_buffer(before, id)->More_0;
            let class = text::Class::LineEnd;
            lemma_rest_is_at_end(before, id);
            lemma_ends_with_more(before, p, b);
            lemma_ends_with_more(before, q, b);
            lemma_no_lone_return_at_end(all, p + b);
            lemma_no_lone_return_at_end(all, q + b);
            lemma_cut_start_of_sum(p, b, class);
            lemma_cut_start_of_sum(q, b, class);
            lemma_line_ends_make_no_difference(p + b, id);
            lemma_line_ends_make_no_difference(q + b, id);
            lemma_rest_is_at_end(p + b, id);
            if let ReadView::More(rest) = read_buffer(p + b, id) {
                lemma_ends_with_chain(all, p + b, rest);
            }
        }
    }
}

proof fn lemma_message_words()
    ensures
        "jsonrpc"@.len() == 7,
        "id"@.len() == 2,
        "method"@.len() == 6 && "method"@[0] == 'm',
        "params"@.len() == 6 && "params"@[0] == 'p',
        "protocolVersion"@.len() == 15,
        "capabilities"@.len() == 12,
        "clientInfo"@.len() == 10,
        "name"@.len() == 4,
        "version"@.len() == 7,
        "arguments"@.len() == 9,
{
    reveal_strlit("jsonrpc");
    reveal_strlit("id");
    reveal_strlit("method");
    reveal_strlit("params");
    reveal_strlit("protocolVersion");
    reveal_strlit("capabilities");
    reveal_strlit("clientInfo");
    reveal_strlit("name");
    reveal_strlit("version");
    reveal_strlit("arguments");
}

/// A request carries its number, the method and the parameters as they were given; a
/// notification carries no number. Both say which protocol they follow.
pub proof fn law_message_carries_what_was_given(id: int, method: Seq<char>, params: JsonView)
    ensures
        request_value(id, method, params).field("jsonrpc"@) == Some(JsonView::Str("2.0"@)),
        request_value(id, method, params).field("id"@) == Some(JsonView::Int(id)),
        request_value(id, method, params).field("method"@) == Some(JsonView::Str(method)),
        request_value(id, method, params).field("params"@) == Some(params),
        notification_value(method, params).field("jsonrpc"@) == Some(JsonView::Str("2.0"@)),
        notification_value(method, params).field("id"@) is None,
        notification_value(method, params).field("method"@) == Some(JsonView::Str(method)),
        notification_value(method, params).field("params"@) == Some(params),
{
    lemma_message_words();
}

/// A call names the tool and hands it the arguments as they were given.
pub proof fn law_call_carries_the_arguments(name: Seq<char>, arguments: JsonView)
    ensures
        call_params(name, arguments).field("name"@) == Some(JsonView::Str(name)),
        call_params(name, arguments).field("arguments"@) == Some(arguments),
{
    lemma_message_words();
}

/// The first message says which version of the protocol is spoken, and by whom.
pub proof fn law_greeting_says_who_speaks(version: Seq<char>)
    ensures
        ({
            let v = initialize_params(version);
            let info = json::value_or_null(v.field("clientInfo"@));
            &&& v.field("protocolVersion"@) == Some(JsonView::Str("2025-03-26"@))
            &&& v.field("capabilities"@) == Some(
                JsonView::Object(Map::<Seq<char>, JsonView>::empty()),
            )
            &&& info.field("name"@) == Some(JsonView::Str("inderes-cli"@))
            &&& info.field("version"@) == Some(JsonView::Str(version))
        }),
{
    lemma_message_words();
}

/// Every message asks for either kind of answer and names the protocol; it names the session
/// exactly where there is one.
pub proof fn law_headers_name_the_session(session: Option<Seq<char>>)
    ensures
        message_headers(session).contains(("Accept"@, "application/json, text/event-stream"@)),
        message_headers(session).contains(("Content-Type"@, "application/json"@)),
        message_headers(session).contains(("MCP-Protocol-Version"@, "2025-03-26"@)),
        session matches Some(s) ==> message_headers(session).contains(("Mcp-Session-Id"@, s)),
        session is None ==> message_headers(session).len() == 3,
        session is Some ==> message_headers(session).len() == 4,
{
    let h = message_headers(session);
    assert(h[0] == ("Accept"@, "application/json, text/event-stream"@));
    assert(h[1] == ("Content-Type"@, "application/json"@));
    assert(h[2] == ("MCP-Protocol-Version"@, "2025-03-26"@));
    if let Some(s) = session {
        assert(h[3] == ("Mcp-Session-Id"@, s));
    }
}

/// A message with an error is a failure with what the error says; one with another number is a
/// failure too; one with the right number and a result gives that result.
pub proof fn law_answer_gives_its_result(msg: JsonView, expected: i64, r: Result<Json, McpError>)
    requires
        is_result(msg, expected, r),
    ensures
        r is Ok <==> msg.field("error"@) is None && msg.field("id"@) == Some(
            JsonView::Int(expected as int),
        ) && msg.field("result"@) is Some,
        r is Ok ==> Some(r->Ok_0@) == msg.field("result"@),
        msg.field("error"@) matches Some(err) ==> r is Err && r->Err_0 is Server && (err.field(
            "code"@,
        ) matches Some(JsonView::Int(n)) ==> i64::MIN <= n <= i64::MAX ==> r->Err_0->Server_0 == n)
            && (err.field("message"@) matches Some(JsonView::Str(m)) ==> r->Err_0->Server_1@ == m),
{
}

/// An answer is read where its status says success, as a stream where its type says so.
pub proof fn law_status_decides(status: u16, content_type: Seq<char>)
    ensures
        answer_kind(status, content_type) == Answer::Refused <==> status / 100 != 2,
        status / 100 == 2 ==> (answer_kind(status, content_type) == Answer::Stream
            <==> content_type.len() >= 17 && content_type.take(17) == "text/event-stream"@),
{
    reveal_strlit("text/event-stream");
    if content_type.len() >= 17 {
        assert(content_type.subrange(0, 17) == content_type.take(17));
    }
}

/// Whether no event ends with an empty line that begins before `n`.
pub open spec fn no_end_before(s: Seq<char>, n: int) -> bool {
    forall|j: int|
        0 <= j < n ==> !#[trigger] text::at(s, "\n\n"@, j) && !text::at(s, "\r\n\r\n"@, j)
}

proof fn lemma_first_end(s: Seq<char>, n: int)
    requires
        0 <= n,
        text::at(s, "\n\n"@, n) != text::at(s, "\r\n\r\n"@, n),
        no_end_before(s, n),
    ensures
        text::at(s, "\n\n"@, n) ==> boundary(s) == Some(n + 2),
        text::at(s, "\r\n\r\n"@, n) ==> boundary(s) == Some(n + 4),
{
    let lf = "\n\n"@;
    let crlf = "\r\n\r\n"@;
    text::law_first_place_of_a_text(s, lf);
    text::law_first_place_of_a_text(s, crlf);
    if let Some(k) = text::found(s, lf) {
        assert(text::at(s, lf, k));
        assert(k >= n);
        assert(text::at(s, lf, n) ==> k == n);
    } else {
        assert(!text::at(s, lf, n));
    }
    if let Some(k) = text::found(s, crlf) {
        assert(text::at(s, crlf, k));
        if k < n {
            let before = text::at(s, lf, k);
            assert(!before);
        }
        assert(k >= n);
        assert(text::at(s, crlf, n) ==> k == n);
    } else {
        assert(!text::at(s, crlf, n));
    }
}

/// An event ends behind its first empty line, whichever line ends it is written with; a text
/// without an empty line holds no whole event.
pub proof fn law_event_ends_at_its_empty_line(a: Seq<char>, b: Seq<char>)
    ensures
        ({
            let s = a + "\n\n"@ + b;
            no_end_before(s, a.len() as int) ==> boundary(s) == Some(a.len() as int + 2)
        }),
        ({
            let s = a + "\r\n\r\n"@ + b;
            no_end_before(s, a.len() as int) ==> boundary(s) == Some(a.len() as int + 4)
        }),
        !text::holds(a, "\n\n"@) && !text::holds(a, "\r\n\r\n"@) ==> boundary(a) is None,
{
    reveal_strlit("\n\n");
    reveal_strlit("\r\n\r\n");
    let lf = "\n\n"@;
    let crlf = "\r\n\r\n"@;
    let n = a.len() as int;
    let s = a + lf + b;
    assert(s.subrange(n, n + 2) == lf);
    if text::at(s, crlf, n) {
        assert(s.subrange(n, n + 4)[0] == s[n]);
        assert(s[n] == lf[0]);
    }
    if no_end_before(s, n) {
        lemma_first_end(s, n);
    }
    let t = a + crlf + b;
    assert(t.subrange(n, n + 4) == crlf);
    if text::at(t, lf, n) {
        assert(t.subrange(n, n + 2)[0] == t[n]);
        assert(t[n] == crlf[0]);
    }
    if no_end_before(t, n) {
        lemma_first_end(t, n);
    }
    text::law_first_place_of_a_text(a, lf);
    text::law_first_place_of_a_text(a, crlf);
}

/// A line of data carries what stands behind its name, without one blank; other lines carry
/// nothing.
pub proof fn law_line_carries_its_data(x: Seq<char>)
    ensures
        line_data("data: "@ + x) == Some(x),
        x.len() == 0 || x[0] != ' ' ==> line_data("data:"@ + x) == Some(x),
        x.len() < 5 || x.take(5) != "data:"@ ==> line_data(x) is None,
{
    reveal_strlit("data:");
    reveal_strlit("data: ");
    reveal_strlit(" ");
    let a = "data: "@ + x;
    assert(a.subrange(0, 5) == "data:"@);
    assert(a.skip(5).subrange(0, 1) == " "@);
    assert(a.skip(5).skip(1) == x);
    let b = "data:"@ + x;
    assert(b.subrange(0, 5) == "data:"@);
    assert(b.skip(5) == x);
    if text::begins(x, " "@) {
        assert(x.subrange(0, 1)[0] == x[0]);
    }
    if x.len() >= 5 {
        assert(x.subrange(0, 5) == x.take(5));
    }
}

/// The data of an event is that of all its lines of data, in order.
pub proof fn law_no_data_is_lost(a: Seq<Seq<char>>, line: Seq<char>, b: Seq<Seq<char>>)
    ensures
        lines_data(a + b) == lines_data(a) + lines_data(b),
        line_data(line) matches Some(d) ==> lines_data(a.push(line)) == lines_data(a).push(d),
        line_data(line) is None ==> lines_data(a.push(line)) == lines_data(a),
    decreases b.len(),
{
    assert(a.push(line).drop_last() == a);
    if b.len() == 0 {
        assert(a + b == a);
        assert(lines_data(a) + lines_data(b) == lines_data(a));
    } else {
        law_no_data_is_lost(a, line, b.drop_last());
        assert((a + b).drop_last() == a + b.drop_last());
        assert((a + b).last() == b.last());
        if let Some(d) = line_data(b.last()) {
            assert((lines_data(a) + lines_data(b.drop_last())).push(d) == lines_data(a)
                + lines_data(b.drop_last()).push(d));
        }
    }
}

/// An event that carries the answer in one line of data gives the message that the data reads
/// as.
pub proof fn law_event_gives_its_message(
    name: Seq<char>,
    data: Seq<char>,
    r: Result<Option<Json>, McpError>,
)
    requires
        !name.contains('\n'),
        name.len() > 0,
        name.last() != '\r',
        line_data(name) is None,
        !data.contains('\n'),
        data.len() == 0 || data.last() != '\r',
        is_message(name + seq!['\n'] + ("data: "@ + data) + seq!['\n'] + seq!['\n'], r),
    ensures
        json::json_of_text(data) matches Ok(v) ==> r is Ok && r->Ok_0 is Some && r->Ok_0->0@ == v,
        json::json_of_text(data) is Err ==> r is Err,
{
    reveal_strlit("data: ");
    let line = "data: "@ + data;
    assert forall|i: int| 0 <= i < line.len() implies line[i] != '\n' by {
        if i >= 6 {
            assert(data.contains(data[i - 6]));
        }
    }
    let event = name + seq!['\n'] + line + seq!['\n'] + seq!['\n'];
    let rest = line + seq!['\n'] + seq!['\n'];
    let end = seq!['\n'];
    assert(event == name + seq!['\n'] + rest);
    text::law_line_feed_ends_a_line(name, rest);
    text::law_line_feed_ends_a_line(line, end);
    text::law_line_feed_ends_a_line(seq![], seq![]);
    assert(Seq::<char>::empty() + seq!['\n'] + Seq::<char>::empty() == end);
    let lines = text::text_lines(event);
    let blank = Seq::<char>::empty();
    assert(lines == seq![name] + (seq![line] + (seq![blank] + Seq::<Seq<char>>::empty())));
    assert(lines == seq![name].push(line).push(blank));
    law_line_carries_its_data(data);
    law_line_carries_its_data(blank);
    let none = Seq::<Seq<char>>::empty();
    assert(none.push(name) == seq![name]);
    law_no_data_is_lost(none, name, none);
    law_no_data_is_lost(seq![name], line, none);
    law_no_data_is_lost(seq![name].push(line), blank, none);
    assert(lines_data(none) == none);
    assert(lines_data(lines) == seq![data]);
    assert(event_data(event) == Some(data));
}

/// A whole event with the answer is taken as the answer at once.
pub proof fn law_answer_is_taken(buf: Seq<char>, id: int, data: Seq<char>, msg: JsonView)
    requires
        boundary(buf) is Some,
        event_data(buf.take(boundary(buf)->0)) == Some(data),
        json::json_of_text(data) == Ok::<JsonView, Seq<char>>(msg),
        i64::MIN <= id <= i64::MAX,
    ensures
        msg.field("id"@) == Some(JsonView::Int(id)) ==> read_buffer(buf, id) == ReadView::Answer(msg),
{
}

/// An answer that comes whole is read as a message; one that is no JSON is a failure.
pub proof fn law_whole_answer_is_a_message(
    body: Seq<char>,
    expected: i64,
    r: Result<Json, McpError>,
)
    requires
        is_whole_result(body, expected, r),
    ensures
        json::json_of_text(body) matches Ok(msg) ==> is_result(msg, expected, r),
        json::json_of_text(body) matches Err(why) ==> r is Err && r->Err_0 is BadAnswer
            && r->Err_0->BadAnswer_0@ == why,
{
}

/// A request goes to the server of the client, with the client's token and the body as it is.
pub proof fn law_request_goes_to_the_server(client: McpClient, request: HttpRequest, body: JsonView)
    requires
        client.carries(request, body),
    ensures
        request.url@ == client.endpoint(),
        request.bearer@ == client.token(),
        request.body is Some && request.body->0@ == body,
        forall|i: int|
            0 <= i < request.headers@.len() ==> ((#[trigger] request.headers@[i]).0@,
            request.headers@[i].1@) == message_headers(client.session())[i],
        request.headers@.len() == message_headers(client.session()).len(),
{
    let seen = headers_view(request.headers@);
    assert(seen.len() == request.headers@.len());
    assert forall|i: int| 0 <= i < request.headers@.len() implies (
    (#[trigger] request.headers@[i]).0@, request.headers@[i].1@) == message_headers(
        client.session(),
    )[i] by {
        assert(seen[i] == (request.headers@[i].0@, request.headers@[i].1@));
    }
}

} // verus!
