//! The read-only relay by which outside programs call the wiki's tools.
use crate::catalog::{
    catalog, described, mcp_tools, schema, sources_schema, strict_schema, tool, typed, ABOUT_GRAPH,
};
use crate::error::{ApiError, ApiErrorView};
use crate::json::{
    array_of_one, array_view, field, i64_value, items_of, lemma_array_view, number_value,
    optional_number, put, put_text, text_at, text_value, Json, JsonView, Number, NumberView,
};
use crate::text::{join, optional_text, optional_view, same, strip_prefix, texts};
use vstd::prelude::*;
use vstd::string::*;

verus! {

/// The version of the protocol that the relay speaks.
pub const MCP_PROTOCOL_VERSION: &'static str = "2024-11-05";

// Answers.

/// An answer that holds a result.
pub open spec fn result_json(id: JsonView, result: JsonView) -> JsonView {
    JsonView::Object(
        map!["jsonrpc"@ => JsonView::Str("2.0"@), "id"@ => id, "result"@ => result],
    )
}

/// An answer that holds an error.
pub open spec fn error_json(id: JsonView, code: int, message: Seq<char>) -> JsonView {
    JsonView::Object(
        map![
            "jsonrpc"@ => JsonView::Str("2.0"@),
            "id"@ => id,
            "error"@ => JsonView::Object(
                map!["code"@ => JsonView::Int(code), "message"@ => JsonView::Str(message)],
            ),
        ],
    )
}

/// The result of a tool call: a text, and whether it tells of an error.
pub open spec fn content_json(text: Seq<char>, is_error: bool) -> JsonView {
    JsonView::Object(
        map![
            "content"@ => JsonView::Array(
                seq![
                    JsonView::Object(
                        map!["type"@ => JsonView::Str("text"@), "text"@ => JsonView::Str(text)],
                    ),
                ],
            ),
            "isError"@ => JsonView::Bool(is_error),
        ],
    )
}

/// An answer that holds a result.
pub fn rpc_result(id: Json, result: Json) -> (r: Json)
    ensures
        r@ == result_json(id@, result@),
{
    let mut fields: Vec<(String, Json)> = Vec::new();
    put_text(&mut fields, "jsonrpc", "2.0");
    put(&mut fields, "id", id);
    put(&mut fields, "result", result);
    Json::Object(fields)
}

/// An answer that holds an error.
pub fn rpc_error(id: Json, code: i64, message: &str) -> (r: Json)
    ensures
        r@ == error_json(id@, code as int, message@),
{
    let mut error: Vec<(String, Json)> = Vec::new();
    put(&mut error, "code", Json::Int(code as i128));
    put_text(&mut error, "message", message);
    let mut fields: Vec<(String, Json)> = Vec::new();
    put_text(&mut fields, "jsonrpc", "2.0");
    put(&mut fields, "id", id);
    put(&mut fields, "error", Json::Object(error));
    Json::Object(fields)
}

/// The result of a tool call as a text.
fn content(text: &str, is_error: bool) -> (r: Json)
    ensures
        r@ == content_json(text@, is_error),
{
    let mut part: Vec<(String, Json)> = Vec::new();
    put_text(&mut part, "type", "text");
    put_text(&mut part, "text", text);
    let mut fields: Vec<(String, Json)> = Vec::new();
    put(&mut fields, "content", array_of_one(Json::Object(part)));
    put(&mut fields, "isError", Json::Bool(is_error));
    Json::Object(fields)
}

/// The result of a tool call that succeeded, by the text of its output. The text is the printed
/// JSON of the output; printing it is left to the caller.
pub fn tool_content(text: &str) -> (r: Json)
    ensures
        r@ == content_json(text@, false),
{
    content(text, false)
}

/// The result of a tool call that failed, by the text of its error.
pub fn tool_failure(message: &str) -> (r: Json)
    ensures
        r@ == content_json("error: "@ + message@, true),
{
    content(join("error: ", message).as_str(), true)
}

// Tool calls.

/// The window that a call asks about.
#[derive(Debug, PartialEq, Eq)]
pub struct TimeQuery {
    pub days: Option<Number>,
    pub since: Option<String>,
    pub until: Option<String>,
}

/// The window that a call asks about.
pub struct TimeQueryView {
    pub days: Option<NumberView>,
    pub since: Option<Seq<char>>,
    pub until: Option<Seq<char>>,
}

impl View for TimeQuery {
    type V = TimeQueryView;

    open spec fn view(&self) -> TimeQueryView {
        TimeQueryView {
            days: optional_number(self.days),
            since: optional_text(self.since),
            until: optional_text(self.until),
        }
    }
}

/// What a tool call asks for.
#[derive(Debug, PartialEq, Eq)]
pub enum ToolCall {
    Search { q: String, limit: Option<i64> },
    Page { document_id: String },
    Graph,
    Changes { query: TimeQuery },
    Timeline { query: TimeQuery },
    Diff { id: String, query: TimeQuery },
    Activity { query: TimeQuery, sources: Vec<String> },
}

/// What a tool call asks for.
pub enum ToolCallView {
    Search { q: Seq<char>, limit: Option<i64> },
    Page { document_id: Seq<char> },
    Graph,
    Changes { query: TimeQueryView },
    Timeline { query: TimeQueryView },
    Diff { id: Seq<char>, query: TimeQueryView },
    Activity { query: TimeQueryView, sources: Seq<Seq<char>> },
}

impl View for ToolCall {
    type V = ToolCallView;

    open spec fn view(&self) -> ToolCallView {
        match self {
            ToolCall::Search { q, limit } => ToolCallView::Search { q: q@, limit: *limit },
            ToolCall::Page { document_id } => ToolCallView::Page { document_id: document_id@ },
            ToolCall::Graph => ToolCallView::Graph,
            ToolCall::Changes { query } => ToolCallView::Changes { query: query@ },
            ToolCall::Timeline { query } => ToolCallView::Timeline { query: query@ },
            ToolCall::Diff { id, query } => ToolCallView::Diff { id: id@, query: query@ },
            ToolCall::Activity { query, sources } => ToolCallView::Activity {
                query: query@,
                sources: texts(sources@),
            },
        }
    }
}

/// The window that arguments state.
pub open spec fn query_of(args: JsonView) -> TimeQueryView {
    TimeQueryView {
        days: number_value(field(args, "days"@)),
        since: text_value(field(args, "since"@)),
        until: text_value(field(args, "until"@)),
    }
}

/// The strings among the items of an array.
pub open spec fn strings_in(items: Seq<JsonView>) -> Seq<Seq<char>>
    decreases items.len(),
{
    if items.len() == 0 {
        Seq::empty()
    } else {
        match items.last() {
            JsonView::Str(s) => strings_in(items.drop_last()).push(s),
            _ => strings_in(items.drop_last()),
        }
    }
}

/// The call that asks for the live feed of one source.
pub open spec fn feed_of(args: JsonView, source: Seq<char>) -> ToolCallView {
    ToolCallView::Activity { query: query_of(args), sources: seq![source] }
}

/// The call that a tool's name and arguments make, or the refusal of a call that names no tool
/// or lacks an argument that its tool must have.
pub open spec fn call_of(name: Seq<char>, args: JsonView) -> Result<ToolCallView, ApiErrorView> {
    if name == "search_wiki"@ {
        match text_value(field(args, "q"@)) {
            Some(q) => Ok(ToolCallView::Search { q, limit: i64_value(field(args, "limit"@)) }),
            None => Err(ApiErrorView::BadRequest("search_wiki requires 'q'"@)),
        }
    } else if name == "read_page"@ {
        match text_value(field(args, "document_id"@)) {
            Some(document_id) => Ok(ToolCallView::Page { document_id }),
            None => Err(ApiErrorView::BadRequest("read_page requires 'document_id'"@)),
        }
    } else if name == "wiki_graph"@ {
        Ok(ToolCallView::Graph)
    } else if name == "recent_changes"@ {
        Ok(ToolCallView::Changes { query: query_of(args) })
    } else if name == "event_timeline"@ {
        Ok(ToolCallView::Timeline { query: query_of(args) })
    } else if name == "page_diff"@ {
        match text_value(field(args, "id"@)) {
            Some(id) => Ok(ToolCallView::Diff { id, query: query_of(args) }),
            None => Err(ApiErrorView::BadRequest("page_diff requires 'id'"@)),
        }
    } else if name == "recent_activity"@ {
        Ok(
            ToolCallView::Activity {
                query: query_of(args),
                sources: strings_in(items_of(field(args, "sources"@))),
            },
        )
    } else if name == "list_merged_prs"@ {
        Ok(feed_of(args, "pr"@))
    } else if name == "list_linear_issues"@ {
        Ok(feed_of(args, "linear"@))
    } else if name == "list_slack_activity"@ {
        Ok(feed_of(args, "slack"@))
    } else {
        Err(ApiErrorView::BadRequest("unknown tool: "@ + name))
    }
}

/// The window that arguments state.
fn read_query(args: &Json) -> (r: TimeQuery)
    ensures
        r@ == query_of(args@),
{
    TimeQuery {
        days: args.get_number("days"),
        since: args.get_str("since"),
        until: args.get_str("until"),
    }
}

/// The strings among the items of an array.
fn read_strings(items: &Vec<Json>) -> (r: Vec<String>)
    ensures
        texts(r@) == strings_in(array_view(items@)),
{
    let ghost all = array_view(items@);
    let mut out: Vec<String> = Vec::new();
    let mut i: usize = 0;
    proof {
        lemma_array_view(items@);
        assert(texts(out@) =~= strings_in(all.take(0)));
    }
    while i < items.len()
        invariant
            i <= items@.len(),
            all.len() == items@.len(),
            forall|j: int| 0 <= j < items@.len() ==> #[trigger] all[j] == items@[j]@,
            texts(out@) == strings_in(all.take(i as int)),
        decreases items@.len() - i,
    {
        let ghost before = out@;
        proof {
            assert(all[i as int] == items@[i as int]@);
            assert(all.take(i + 1).drop_last() =~= all.take(i as int));
        }
        if let Some(s) = items[i].as_str() {
            out.push(s.to_owned());
            proof {
                assert(texts(out@) =~= texts(before).push(s@));
            }
        }
        i += 1;
    }
    proof {
        assert(all.take(i as int) =~= all);
    }
    out
}

/// The call that asks for the live feed of one source.
fn feed_call(args: &Json, source: &str) -> (r: ToolCall)
    ensures
        r@ == feed_of(args@, source@),
{
    let mut sources: Vec<String> = Vec::new();
    sources.push(source.to_owned());
    proof {
        assert(texts(sources@) =~= seq![source@]);
    }
    ToolCall::Activity { query: read_query(args), sources }
}

/// The refusal of a call.
fn refuse(message: &str) -> (r: Result<ToolCall, ApiError>)
    ensures
        r matches Err(e) && e@ == ApiErrorView::BadRequest(message@),
{
    Err(ApiError::BadRequest(message.to_owned()))
}

/// What the call of a tool asks for. A call that names no tool, or lacks an argument that its
/// tool must have, is refused.
pub fn mcp_call_tool(name: &str, args: &Json) -> (r: Result<ToolCall, ApiError>)
    ensures
        match r {
            Ok(call) => call_of(name@, args@) == Ok::<_, ApiErrorView>(call@),
            Err(e) => call_of(name@, args@) == Err::<ToolCallView, _>(e@),
        },
{
    if same(name, "search_wiki") {
        match args.get_str("q") {
            Some(q) => Ok(ToolCall::Search { q, limit: args.get_i64("limit") }),
            None => refuse("search_wiki requires 'q'"),
        }
    } else if same(name, "read_page") {
        match args.get_str("document_id") {
            Some(document_id) => Ok(ToolCall::Page { document_id }),
            None => refuse("read_page requires 'document_id'"),
        }
    } else if same(name, "wiki_graph") {
        Ok(ToolCall::Graph)
    } else if same(name, "recent_changes") {
        Ok(ToolCall::Changes { query: read_query(args) })
    } else if same(name, "event_timeline") {
        Ok(ToolCall::Timeline { query: read_query(args) })
    } else if same(name, "page_diff") {
        match args.get_str("id") {
            Some(id) => Ok(ToolCall::Diff { id, query: read_query(args) }),
            None => refuse("page_diff requires 'id'"),
        }
    } else if same(name, "recent_activity") {
        let sources: Vec<String> = match args.get("sources") {
            Some(list) => match list.as_array() {
                Some(items) => read_strings(items),
                None => Vec::new(),
            },
            None => Vec::new(),
        };
        proof {
            assert(texts(sources@) =~= strings_in(items_of(field(args@, "sources"@))));
        }
        Ok(ToolCall::Activity { query: read_query(args), sources })
    } else if same(name, "list_merged_prs") {
        Ok(feed_call(args, "pr"))
    } else if same(name, "list_linear_issues") {
        Ok(feed_call(args, "linear"))
    } else if same(name, "list_slack_activity") {
        Ok(feed_call(args, "slack"))
    } else {
        refuse(join("unknown tool: ", name).as_str())
    }
}

// Who may call.

/// Why a request is turned away before it is read.
#[derive(Clone, Copy, Debug, PartialEq, Eq, Structural)]
pub enum Refusal {
    /// The relay is switched off, and does not show that it exists.
    NotFound,
    /// The request does not present the token.
    Unauthorized,
}

/// Whether a byte may stand in a header that can be read as a text.
pub open spec fn visible(b: u8) -> bool {
    32 <= b < 127 || b == 9
}

/// The text of a header, where all of it is visible.
pub open spec fn header_value(bytes: Seq<u8>) -> Option<Seq<char>> {
    if forall|i: int| 0 <= i < bytes.len() ==> visible(#[trigger] bytes[i]) {
        Some(bytes.map_values(|b: u8| b as char))
    } else {
        None
    }
}

/// The token that an authorization header presents; nothing where it presents none.
pub open spec fn presented_token(header: Option<Seq<u8>>) -> Seq<char> {
    match header {
        Some(bytes) => match header_value(bytes) {
            Some(s) => if "Bearer "@.is_prefix_of(s) {
                s.skip("Bearer "@.len() as int)
            } else {
                Seq::empty()
            },
            None => Seq::empty(),
        },
        None => Seq::empty(),
    }
}

/// Why a request is turned away, if it is: the relay has no token, or the header presents
/// another one.
pub open spec fn refusal_of(expected: Option<Seq<char>>, header: Option<Seq<u8>>) -> Option<
    Refusal,
> {
    match expected {
        Some(token) if token.len() > 0 => if presented_token(header) == token {
            None
        } else {
            Some(Refusal::Unauthorized)
        },
        _ => Some(Refusal::NotFound),
    }
}

/// The text of a header.
fn read_header(bytes: &[u8]) -> (r: Option<String>)
    ensures
        optional_text(r) == header_value(bytes@),
{
    let mut out = String::new();
    let mut i: usize = 0;
    proof {
        reveal_strlit("");
        assert(out@ =~= bytes@.take(0).map_values(|b: u8| b as char));
    }
    while i < bytes.len()
        invariant
            i <= bytes@.len(),
            forall|j: int| 0 <= j < i ==> visible(#[trigger] bytes@[j]),
            out@ == bytes@.take(i as int).map_values(|b: u8| b as char),
        decreases bytes@.len() - i,
    {
        let b: u8 = bytes[i];
        if !((32 <= b && b < 127) || b == 9) {
            proof {
                assert(!visible(bytes@[i as int]));
            }
            return None;
        }
        out.push(b as char);
        proof {
            assert(out@ =~= bytes@.take(i + 1).map_values(|b: u8| b as char));
        }
        i += 1;
    }
    proof {
        assert(bytes@.take(i as int) =~= bytes@);
    }
    Some(out)
}

/// Whether two texts are equal, found out by looking at all of their bytes.
fn same_token(a: &str, b: &str) -> (r: bool)
    ensures
        r == (a@ == b@),
{
    let x = a.as_bytes();
    let y = b.as_bytes();
    proof {
        vstd::utf8::encode_utf8_decode_utf8(a@);
        vstd::utf8::encode_utf8_decode_utf8(b@);
    }
    if x.len() != y.len() {
        return false;
    }
    let mut seen: u8 = 0;
    let mut i: usize = 0;
    while i < x.len()
        invariant
            x@.len() == y@.len(),
            i <= x@.len(),
            seen == 0 <==> (forall|j: int| 0 <= j < i ==> x@[j] == y@[j]),
        decreases x@.len() - i,
    {
        let p: u8 = x[i];
        let q: u8 = y[i];
        let ghost before = seen;
        seen = seen | (p ^ q);
        proof {
            assert((before | (p ^ q)) == 0 <==> (before == 0 && p == q)) by (bit_vector);
        }
        i += 1;
    }
    proof {
        if seen == 0 {
            assert(x@ =~= y@);
        }
    }
    seen == 0
}

/// The bytes of a header that may be absent.
pub open spec fn header_bytes(header: Option<&[u8]>) -> Option<Seq<u8>> {
    match header {
        Some(bytes) => Some(bytes@),
        None => None,
    }
}

/// Whether a request may call the relay. `expected` is the relay's token, without which, or with
/// an empty one, it is switched off; `header` is the request's authorization header.
pub fn mcp_authorized(expected: Option<&str>, header: Option<&[u8]>) -> (r: Result<(), Refusal>)
    ensures
        match r {
            Ok(()) => refusal_of(optional_view(expected), header_bytes(header)) is None,
            Err(e) => refusal_of(optional_view(expected), header_bytes(header)) == Some(e),
        },
{
    let token = match expected {
        Some(token) => token,
        None => {
            return Err(Refusal::NotFound);
        },
    };
    if token.is_empty() {
        return Err(Refusal::NotFound);
    }
    let text: Option<String> = match header {
        Some(bytes) => read_header(bytes),
        None => None,
    };
    let presented: String = match text {
        Some(s) => match strip_prefix(s.as_str(), "Bearer ") {
            Some(rest) => rest,
            None => String::new(),
        },
        None => String::new(),
    };
    proof {
        reveal_strlit("");
        assert(""@ =~= Seq::empty());
        assert(presented@ == presented_token(header_bytes(header)));
    }
    if same_token(presented.as_str(), token) {
        Ok(())
    } else {
        Err(Refusal::Unauthorized)
    }
}

// Requests.

/// What is to be done about a request.
#[derive(Debug, PartialEq, Eq)]
pub enum Step {
    /// The request is turned away.
    Refuse(Refusal),
    /// The request is taken note of, and not answered.
    Accept,
    /// The request is answered.
    Answer(Json),
    /// A tool is called; its outcome answers the request of this id.
    Call { id: Json, call: ToolCall },
    /// A tool call is refused; the refusal answers the request of this id.
    Fail { id: Json, error: ApiError },
}

/// What is to be done about a request.
pub enum StepView {
    Refuse(Refusal),
    Accept,
    Answer(JsonView),
    Call { id: JsonView, call: ToolCallView },
    Fail { id: JsonView, error: ApiErrorView },
}

impl View for Step {
    type V = StepView;

    open spec fn view(&self) -> StepView {
        match self {
            Step::Refuse(refusal) => StepView::Refuse(*refusal),
            Step::Accept => StepView::Accept,
            Step::Answer(json) => StepView::Answer(json@),
            Step::Call { id, call } => StepView::Call { id: id@, call: call@ },
            Step::Fail { id, error } => StepView::Fail { id: id@, error: error@ },
        }
    }
}

/// The field `name` of a value, or `otherwise` where there is none.
pub open spec fn field_or(json: JsonView, name: Seq<char>, otherwise: JsonView) -> JsonView {
    match field(json, name) {
        Some(v) => v,
        None => otherwise,
    }
}

/// What the relay says of itself.
pub open spec fn greeting() -> JsonView {
    JsonView::Object(
        map![
            "protocolVersion"@ => JsonView::Str(MCP_PROTOCOL_VERSION@),
            "capabilities"@ => JsonView::Object(map!["tools"@ => JsonView::Object(Map::empty())]),
            "serverInfo"@ => JsonView::Object(
                map![
                    "name"@ => JsonView::Str("darkbloom-wiki-mcp"@),
                    "version"@ => JsonView::Str("1.0.0"@),
                ],
            ),
        ],
    )
}

/// The id of a request.
pub open spec fn id_of(request: JsonView) -> JsonView {
    field_or(request, "id"@, JsonView::Null)
}

/// What is to be done about a request that is let in.
pub open spec fn step_of(request: JsonView) -> StepView {
    let id = id_of(request);
    let method = text_at(request, "method"@);
    if method == "initialize"@ {
        StepView::Answer(result_json(id, greeting()))
    } else if method == "notifications/initialized"@ {
        StepView::Accept
    } else if method == "tools/list"@ {
        StepView::Answer(
            result_json(id, JsonView::Object(map!["tools"@ => JsonView::Array(catalog())])),
        )
    } else if method == "tools/call"@ {
        let params = field_or(request, "params"@, JsonView::Null);
        let args = field_or(params, "arguments"@, JsonView::Object(Map::empty()));
        match call_of(text_at(params, "name"@), args) {
            Ok(call) => StepView::Call { id, call },
            Err(error) => StepView::Fail { id, error },
        }
    } else if method == "ping"@ {
        StepView::Answer(result_json(id, JsonView::Object(Map::empty())))
    } else {
        StepView::Answer(error_json(id, -32601, "method not found: "@ + method))
    }
}

/// What is to be done about a request.
pub open spec fn handled(
    expected: Option<Seq<char>>,
    header: Option<Seq<u8>>,
    request: JsonView,
) -> StepView {
    match refusal_of(expected, header) {
        Some(refusal) => StepView::Refuse(refusal),
        None => step_of(request),
    }
}

/// A copy of the field `name`, or `otherwise` where there is none.
fn copy_field(json: &Json, name: &str, otherwise: Json) -> (r: Json)
    ensures
        r@ == field_or(json@, name@, otherwise@),
{
    match json.get(name) {
        Some(v) => v.duplicate(),
        None => otherwise,
    }
}

/// What the relay says of itself.
fn greet() -> (r: Json)
    ensures
        r@ == greeting(),
{
    let mut capabilities: Vec<(String, Json)> = Vec::new();
    put(&mut capabilities, "tools", Json::Object(Vec::new()));
    let mut info: Vec<(String, Json)> = Vec::new();
    put_text(&mut info, "name", "darkbloom-wiki-mcp");
    put_text(&mut info, "version", "1.0.0");
    let mut fields: Vec<(String, Json)> = Vec::new();
    put_text(&mut fields, "protocolVersion", MCP_PROTOCOL_VERSION);
    put(&mut fields, "capabilities", Json::Object(capabilities));
    put(&mut fields, "serverInfo", Json::Object(info));
    Json::Object(fields)
}

/// What is to be done about a request that is let in.
fn mcp_step(request: &Json) -> (r: Step)
    ensures
        r@ == step_of(request@),
{
    let id = copy_field(request, "id", Json::Null);
    let method = request.get_text("method");
    let method = method.as_str();
    if same(method, "initialize") {
        Step::Answer(rpc_result(id, greet()))
    } else if same(method, "notifications/initialized") {
        Step::Accept
    } else if same(method, "tools/list") {
        let mut fields: Vec<(String, Json)> = Vec::new();
        put(&mut fields, "tools", mcp_tools());
        Step::Answer(rpc_result(id, Json::Object(fields)))
    } else if same(method, "tools/call") {
        let params = copy_field(request, "params", Json::Null);
        let name = params.get_text("name");
        let args = copy_field(&params, "arguments", Json::Object(Vec::new()));
        match mcp_call_tool(name.as_str(), &args) {
            Ok(call) => Step::Call { id, call },
            Err(error) => Step::Fail { id, error },
        }
    } else if same(method, "ping") {
        Step::Answer(rpc_result(id, Json::Object(Vec::new())))
    } else {
        Step::Answer(rpc_error(id, -32601, join("method not found: ", method).as_str()))
    }
}

/// What is to be done about a request. `expected` is the relay's token and `header` the
/// request's authorization header.
pub fn mcp_handler(expected: Option<&str>, header: Option<&[u8]>, request: &Json) -> (r: Step)
    ensures
        r@ == handled(optional_view(expected), header_bytes(header), request@),
{
    match mcp_authorized(expected, header) {
        Ok(()) => mcp_step(request),
        Err(refusal) => Step::Refuse(refusal),
    }
}

/// The answer to a tool call: the text of its output, or the text of its error.
pub open spec fn call_answer(id: JsonView, outcome: Result<Seq<char>, Seq<char>>) -> JsonView {
    result_json(
        id,
        match outcome {
            Ok(text) => content_json(text, false),
            Err(message) => content_json("error: "@ + message, true),
        },
    )
}

/// The answer to the tool call of this id. An error of the tool is a result that says so, and no
/// error of the protocol.
pub fn answer_call(id: Json, outcome: Result<&str, &str>) -> (r: Json)
    ensures
        r@ == call_answer(
            id@,
            match outcome {
                Ok(text) => Ok(text@),
                Err(message) => Err(message@),
            },
        ),
{
    match outcome {
        Ok(text) => rpc_result(id, tool_content(text)),
        Err(message) => rpc_result(id, tool_failure(message)),
    }
}

// What holds of every request.

/// The text that a tool's result carries.
pub open spec fn carried_text(result: JsonView) -> Option<Seq<char>> {
    let parts = items_of(field(result, "content"@));
    if parts.len() == 1 {
        text_value(field(parts[0], "text"@))
    } else {
        None
    }
}

/// The answer to a tool call that succeeded carries the text of its output unchanged, as the one
/// part of its content, and is no error.
pub proof fn law_answer_carries_text(id: JsonView, text: Seq<char>)
    ensures
        ({
            let result = field_or(call_answer(id, Ok(text)), "result"@, JsonView::Null);
            &&& carried_text(result) == Some(text)
            &&& field(result, "isError"@) == Some(JsonView::Bool(false))
            &&& text_value(field(items_of(field(result, "content"@))[0], "type"@)) == Some("text"@)
        }),
{
    reveal_strlit("content");
    reveal_strlit("isError");
    reveal_strlit("type");
    reveal_strlit("text");
    assert("content"@.len() == 7);
    assert("isError"@[0] == 'i');
    assert("content"@[0] == 'c');
    assert("type"@[1] == 'y');
    assert("text"@[1] == 'e');
}

/// A relay without a token turns every request away, and shows none that it exists.
pub proof fn law_relay_without_token_is_hidden(
    expected: Option<Seq<char>>,
    header: Option<Seq<u8>>,
    request: JsonView,
)
    requires
        expected is None || expected->0.len() == 0,
    ensures
        handled(expected, header, request) == StepView::Refuse(Refusal::NotFound),
{
}

/// A request is let in exactly where it presents the token of a relay that has one.
pub proof fn law_token_lets_in(token: Seq<char>, header: Seq<u8>, request: JsonView)
    requires
        token.len() > 0,
    ensures
        header_value(header) == Some("Bearer "@ + token) ==> handled(
            Some(token),
            Some(header),
            request,
        ) == step_of(request),
        header_value(header) != Some("Bearer "@ + token) ==> handled(
            Some(token),
            Some(header),
            request,
        ) == StepView::Refuse(Refusal::Unauthorized),
        handled(Some(token), None, request) == StepView::Refuse(Refusal::Unauthorized),
{
    let bearer = "Bearer "@;
    assert((bearer + token).skip(bearer.len() as int) =~= token);
    assert((bearer + token).subrange(0, bearer.len() as int) =~= bearer);
    if let Some(s) = header_value(header) {
        if bearer.is_prefix_of(s) && s.skip(bearer.len() as int) == token {
            assert(s =~= bearer + token);
        }
    }
}

/// The field of an answer that tells which request it answers.
pub open spec fn answered_id(answer: JsonView) -> Option<JsonView> {
    field(answer, "id"@)
}

proof fn lemma_answered_id(id: JsonView, result: JsonView, code: int, message: Seq<char>)
    ensures
        answered_id(result_json(id, result)) == Some(id),
        answered_id(error_json(id, code, message)) == Some(id),
{
    reveal_strlit("id");
    reveal_strlit("result");
    reveal_strlit("error");
    assert("id"@.len() == 2);
    assert("result"@.len() == 6);
    assert("error"@.len() == 5);
}

/// Every answer carries the id of its request, and null where the request has none. So do the
/// steps that are answered later.
pub proof fn law_answers_carry_id(request: JsonView, outcome: Result<Seq<char>, Seq<char>>)
    ensures
        match step_of(request) {
            StepView::Refuse(_) => false,
            StepView::Accept => true,
            StepView::Answer(answer) => answered_id(answer) == Some(id_of(request)),
            StepView::Call { id, call } => answered_id(call_answer(id, outcome)) == Some(
                id_of(request),
            ),
            StepView::Fail { id, error } => answered_id(call_answer(id, outcome)) == Some(
                id_of(request),
            ),
        },
{
    let id = id_of(request);
    let method = text_at(request, "method"@);
    lemma_answered_id(id, greeting(), -32601, "method not found: "@ + method);
    lemma_answered_id(
        id,
        JsonView::Object(map!["tools"@ => JsonView::Array(catalog())]),
        0,
        Seq::empty(),
    );
    lemma_answered_id(id, JsonView::Object(Map::empty()), 0, Seq::empty());
    lemma_answered_id(
        id,
        match outcome {
            Ok(text) => content_json(text, false),
            Err(message) => content_json("error: "@ + message, true),
        },
        0,
        Seq::empty(),
    );
}

/// The name of an entry of the catalog.
pub open spec fn tool_name(entry: JsonView) -> Seq<char> {
    text_at(entry, "name"@)
}

/// The fields that an entry of the catalog says a call must have.
pub open spec fn required_fields(entry: JsonView) -> Seq<JsonView> {
    items_of(field(field_or(entry, "inputSchema"@, JsonView::Null), "required"@))
}

/// Whether arguments have, as strings, all fields that an entry of the catalog asks for.
pub open spec fn has_required(entry: JsonView, args: JsonView) -> bool {
    forall|k: int|
        0 <= k < required_fields(entry).len() ==> match #[trigger] required_fields(entry)[k] {
            JsonView::Str(name) => text_value(field(args, name)) is Some,
            _ => false,
        }
}

proof fn lemma_tool_fields(name: Seq<char>, description: Seq<char>, input: JsonView)
    ensures
        tool_name(tool(name, description, input)) == name,
        field_or(tool(name, description, input), "inputSchema"@, JsonView::Null) == input,
{
    reveal_strlit("name");
    reveal_strlit("description");
    reveal_strlit("inputSchema");
    assert("name"@.len() == 4);
    assert("description"@.len() == 11);
    assert("inputSchema"@.len() == 11);
}

proof fn lemma_schema_required(properties: Map<Seq<char>, JsonView>, required: Seq<char>)
    ensures
        items_of(field(schema(properties), "required"@)).len() == 0,
        items_of(field(strict_schema(properties, required), "required"@)) == seq![
            JsonView::Str(required),
        ],
{
    reveal_strlit("type");
    reveal_strlit("properties");
    reveal_strlit("required");
}

/// The names of the tools in the catalog, in their order.
pub open spec fn tool_names() -> Seq<Seq<char>> {
    seq![
        "search_wiki"@,
        "read_page"@,
        "wiki_graph"@,
        "recent_changes"@,
        "event_timeline"@,
        "page_diff"@,
        "recent_activity"@,
        "list_merged_prs"@,
        "list_linear_issues"@,
        "list_slack_activity"@,
    ]
}

proof fn lemma_catalog_entry(i: int)
    requires
        0 <= i < catalog().len(),
    ensures
        catalog().len() == tool_names().len(),
        tool_name(catalog()[i]) == tool_names()[i],
        required_fields(catalog()[i]) == if i == 0 {
            seq![JsonView::Str("q"@)]
        } else if i == 1 {
            seq![JsonView::Str("document_id"@)]
        } else if i == 5 {
            seq![JsonView::Str("id"@)]
        } else {
            Seq::empty()
        },
{
    assert forall|name: Seq<char>, description: Seq<char>, input: JsonView| tool_name(
        #[trigger] tool(name, description, input),
    ) == name && field_or(tool(name, description, input), "inputSchema"@, JsonView::Null)
        == input by {
        lemma_tool_fields(name, description, input);
    }
    assert forall|properties: Map<Seq<char>, JsonView>|
        items_of(field(#[trigger] schema(properties), "required"@)).len() == 0 by {
        lemma_schema_required(properties, Seq::empty());
    }
    assert forall|properties: Map<Seq<char>, JsonView>, required: Seq<char>|
        items_of(field(#[trigger] strict_schema(properties, required), "required"@)) == seq![
            JsonView::Str(required),
        ] by {
        lemma_schema_required(properties, required);
    }
}

/// No two tools of the catalog share a name.
pub proof fn lemma_tool_names_differ()
    ensures
        forall|i: int, j: int|
            0 <= i < j < tool_names().len() ==> #[trigger] tool_names()[i]
                != #[trigger] tool_names()[j],
{
    reveal_strlit("search_wiki");
    reveal_strlit("read_page");
    reveal_strlit("wiki_graph");
    reveal_strlit("recent_changes");
    reveal_strlit("event_timeline");
    reveal_strlit("page_diff");
    reveal_strlit("recent_activity");
    reveal_strlit("list_merged_prs");
    reveal_strlit("list_linear_issues");
    reveal_strlit("list_slack_activity");
    assert("search_wiki"@.len() == 11);
    assert("read_page"@.len() == 9);
    assert("wiki_graph"@.len() == 10);
    assert("recent_changes"@.len() == 14);
    assert("event_timeline"@.len() == 14);
    assert("page_diff"@.len() == 9);
    assert("recent_activity"@.len() == 15);
    assert("list_merged_prs"@.len() == 15);
    assert("list_linear_issues"@.len() == 18);
    assert("list_slack_activity"@.len() == 19);
    assert("read_page"@[0] == 'r');
    assert("page_diff"@[0] == 'p');
    assert("recent_changes"@[0] == 'r');
    assert("event_timeline"@[0] == 'e');
    assert("recent_activity"@[0] == 'r');
    assert("list_merged_prs"@[0] == 'l');
}

/// Every tool of the catalog can be called: a call that gives the fields which the catalog says
/// it must give is never refused.
pub proof fn law_catalog_is_served(i: int, args: JsonView)
    requires
        0 <= i < catalog().len(),
        has_required(catalog()[i], args),
    ensures
        call_of(tool_name(catalog()[i]), args) is Ok,
{
    lemma_catalog_entry(i);
    lemma_tool_names_differ();
    let required = required_fields(catalog()[i]);
    if required.len() > 0 {
        assert(required[0] is Str);
    }
}

/// A call that names no tool of the catalog is refused, and told the name.
pub proof fn law_unknown_tool_is_refused(name: Seq<char>, args: JsonView)
    requires
        forall|i: int| 0 <= i < catalog().len() ==> tool_name(#[trigger] catalog()[i]) != name,
    ensures
        call_of(name, args) == Err::<ToolCallView, _>(
            ApiErrorView::BadRequest("unknown tool: "@ + name),
        ),
{
    assert forall|i: int| 0 <= i < tool_names().len() implies #[trigger] tool_names()[i]
        != name by {
        lemma_catalog_entry(i);
        assert(tool_name(catalog()[i]) != name);
    }
    assert(tool_names()[0] != name);
    assert(tool_names()[1] != name);
    assert(tool_names()[2] != name);
    assert(tool_names()[3] != name);
    assert(tool_names()[4] != name);
    assert(tool_names()[5] != name);
    assert(tool_names()[6] != name);
    assert(tool_names()[7] != name);
    assert(tool_names()[8] != name);
    assert(tool_names()[9] != name);
}

// What calls ask for.

/// The window of a call is that of its arguments: the number under `days`, the text under `since`
/// and the text under `until`, each missing only where the arguments lack it.
pub proof fn law_window_is_that_of_arguments(
    more: Map<Seq<char>, JsonView>,
    n: int,
    bits: u64,
    since: Seq<char>,
    until: Seq<char>,
    args: JsonView,
)
    ensures
        ({
            let fields = more.insert("since"@, JsonView::Str(since)).insert(
                "until"@,
                JsonView::Str(until),
            );
            let whole = query_of(JsonView::Object(fields.insert("days"@, JsonView::Int(n))));
            let part = query_of(JsonView::Object(fields.insert("days"@, JsonView::Float(bits))));
            &&& whole.days == Some(NumberView::Int(n))
            &&& whole.since == Some(since)
            &&& whole.until == Some(until)
            &&& part.days == Some(NumberView::Float(bits))
            &&& part.since == Some(since)
            &&& part.until == Some(until)
        }),
        query_of(args).days == number_value(field(args, "days"@)),
        query_of(args).since == text_value(field(args, "since"@)),
        query_of(args).until == text_value(field(args, "until"@)),
{
    reveal_strlit("days");
    reveal_strlit("since");
    reveal_strlit("until");
    assert("days"@.len() == 4);
    assert("since"@.len() == 5);
    assert("until"@.len() == 5);
    assert("since"@[0] == 's');
    assert("until"@[0] == 'u');
}

/// The window that the call of a tool carries, where it carries one.
pub open spec fn window_of_call(call: Result<ToolCallView, ApiErrorView>) -> Option<TimeQueryView> {
    match call {
        Ok(ToolCallView::Changes { query }) => Some(query),
        Ok(ToolCallView::Timeline { query }) => Some(query),
        Ok(ToolCallView::Diff { id, query }) => Some(query),
        Ok(ToolCallView::Activity { query, sources }) => Some(query),
        _ => None,
    }
}

/// Whether a call carries the window that its arguments state.
pub open spec fn carries_window(call: Result<ToolCallView, ApiErrorView>, args: JsonView) -> bool {
    window_of_call(call) matches Some(query) && {
        &&& query.days == number_value(field(args, "days"@))
        &&& query.since == text_value(field(args, "since"@))
        &&& query.until == text_value(field(args, "until"@))
    }
}

/// Every tool that asks about a window asks about the one that its arguments state.
pub proof fn law_tools_carry_window(args: JsonView)
    ensures
        carries_window(call_of("recent_changes"@, args), args),
        carries_window(call_of("event_timeline"@, args), args),
        carries_window(call_of("recent_activity"@, args), args),
        carries_window(call_of("list_merged_prs"@, args), args),
        carries_window(call_of("list_linear_issues"@, args), args),
        carries_window(call_of("list_slack_activity"@, args), args),
        text_value(field(args, "id"@)) is Some ==> carries_window(
            call_of("page_diff"@, args),
            args,
        ),
{
    lemma_tool_names_differ();
    assert(tool_names()[0] == "search_wiki"@);
    assert(tool_names()[1] == "read_page"@);
    assert(tool_names()[2] == "wiki_graph"@);
    assert(tool_names()[3] == "recent_changes"@);
    assert(tool_names()[4] == "event_timeline"@);
    assert(tool_names()[5] == "page_diff"@);
    assert(tool_names()[6] == "recent_activity"@);
    assert(tool_names()[7] == "list_merged_prs"@);
    assert(tool_names()[8] == "list_linear_issues"@);
    assert(tool_names()[9] == "list_slack_activity"@);
}

/// The tools for one live source make the call that the tool for all of them makes with that source
/// named, and with the same window.
pub proof fn law_live_tools_name_their_source(fields: Map<Seq<char>, JsonView>)
    ensures
        ({
            let args = JsonView::Object(fields);
            let pr = JsonView::Array(seq![JsonView::Str("pr"@)]);
            let linear = JsonView::Array(seq![JsonView::Str("linear"@)]);
            let slack = JsonView::Array(seq![JsonView::Str("slack"@)]);
            &&& call_of("list_merged_prs"@, args) == call_of(
                "recent_activity"@,
                JsonView::Object(fields.insert("sources"@, pr)),
            )
            &&& call_of("list_linear_issues"@, args) == call_of(
                "recent_activity"@,
                JsonView::Object(fields.insert("sources"@, linear)),
            )
            &&& call_of("list_slack_activity"@, args) == call_of(
                "recent_activity"@,
                JsonView::Object(fields.insert("sources"@, slack)),
            )
            &&& call_of("list_merged_prs"@, args) matches Ok(
                ToolCallView::Activity { query, sources },
            ) && sources == seq!["pr"@]
            &&& call_of("list_linear_issues"@, args) matches Ok(
                ToolCallView::Activity { query, sources },
            ) && sources == seq!["linear"@]
            &&& call_of("list_slack_activity"@, args) matches Ok(
                ToolCallView::Activity { query, sources },
            ) && sources == seq!["slack"@]
        }),
{
    lemma_tool_names_differ();
    assert(tool_names()[0] == "search_wiki"@);
    assert(tool_names()[1] == "read_page"@);
    assert(tool_names()[2] == "wiki_graph"@);
    assert(tool_names()[3] == "recent_changes"@);
    assert(tool_names()[4] == "event_timeline"@);
    assert(tool_names()[5] == "page_diff"@);
    assert(tool_names()[6] == "recent_activity"@);
    assert(tool_names()[7] == "list_merged_prs"@);
    assert(tool_names()[8] == "list_linear_issues"@);
    assert(tool_names()[9] == "list_slack_activity"@);
    reveal_strlit("days");
    reveal_strlit("since");
    reveal_strlit("until");
    reveal_strlit("sources");
    assert("days"@.len() == 4);
    assert("since"@.len() == 5);
    assert("until"@.len() == 5);
    assert("sources"@.len() == 7);
    assert("since"@[0] == 's');
    assert("until"@[0] == 'u');
    lemma_one_string("pr"@);
    lemma_one_string("linear"@);
    lemma_one_string("slack"@);
}

proof fn lemma_one_string(s: Seq<char>)
    ensures
        strings_in(seq![JsonView::Str(s)]) == seq![s],
{
    let one = seq![JsonView::Str(s)];
    assert(one.drop_last() =~= Seq::empty());
    assert(strings_in(one.drop_last()) =~= Seq::empty());
    assert(Seq::empty().push(s) =~= seq![s]);
}

/// The sources that a call names are the strings of its list, all of them and in their order, and
/// what is no string is passed over; without a list there are none.
pub proof fn law_sources_are_the_strings(
    a: Seq<JsonView>,
    b: Seq<JsonView>,
    s: Seq<char>,
    other: JsonView,
    args: JsonView,
)
    ensures
        strings_in(a + b) == strings_in(a) + strings_in(b),
        strings_in(seq![JsonView::Str(s)]) == seq![s],
        !(other is Str) ==> strings_in(seq![other]).len() == 0,
        strings_in(Seq::empty()).len() == 0,
        call_of("recent_activity"@, args) matches Ok(ToolCallView::Activity { query, sources })
            && sources == strings_in(items_of(field(args, "sources"@))),
    decreases b.len(),
{
    lemma_one_string(s);
    assert(seq![other].drop_last() =~= Seq::empty());
    assert(strings_in(seq![other].drop_last()) =~= Seq::empty());
    lemma_tool_names_differ();
    assert(tool_names()[0] == "search_wiki"@);
    assert(tool_names()[1] == "read_page"@);
    assert(tool_names()[2] == "wiki_graph"@);
    assert(tool_names()[3] == "recent_changes"@);
    assert(tool_names()[4] == "event_timeline"@);
    assert(tool_names()[5] == "page_diff"@);
    assert(tool_names()[6] == "recent_activity"@);
    assert(tool_names()[7] == "list_merged_prs"@);
    assert(tool_names()[8] == "list_linear_issues"@);
    assert(tool_names()[9] == "list_slack_activity"@);
    if b.len() == 0 {
        assert(a + b =~= a);
    } else {
        assert((a + b).drop_last() =~= a + b.drop_last());
        law_sources_are_the_strings(a, b.drop_last(), s, other, args);
    }
    assert(strings_in(a + b) =~= strings_in(a) + strings_in(b));
}

/// The tools that need an argument ask for what it says, and a search with the limit that is given;
/// without the argument the call is refused, and told which one it lacks. The graph needs none.
pub proof fn law_arguments_are_asked_for(
    more: Map<Seq<char>, JsonView>,
    text: Seq<char>,
    limit: int,
    args: JsonView,
)
    ensures
        call_of("search_wiki"@, JsonView::Object(more.insert("q"@, JsonView::Str(text)))) matches Ok(
            ToolCallView::Search { q, limit },
        ) && q == text,
        i64::MIN <= limit <= i64::MAX ==> call_of(
            "search_wiki"@,
            JsonView::Object(
                more.insert("q"@, JsonView::Str(text)).insert("limit"@, JsonView::Int(limit)),
            ),
        ) == Ok::<_, ApiErrorView>(ToolCallView::Search { q: text, limit: Some(limit as i64) }),
        call_of("search_wiki"@, JsonView::Object(map!["q"@ => JsonView::Str(text)])) == Ok::<
            _,
            ApiErrorView,
        >(ToolCallView::Search { q: text, limit: None }),
        call_of(
            "read_page"@,
            JsonView::Object(more.insert("document_id"@, JsonView::Str(text))),
        ) == Ok::<_, ApiErrorView>(ToolCallView::Page { document_id: text }),
        call_of("page_diff"@, JsonView::Object(more.insert("id"@, JsonView::Str(text)))) matches Ok(
            ToolCallView::Diff { id, query },
        ) && id == text,
        call_of("wiki_graph"@, args) == Ok::<_, ApiErrorView>(ToolCallView::Graph),
        call_of("recent_changes"@, args) matches Ok(ToolCallView::Changes { query }),
        call_of("event_timeline"@, args) matches Ok(ToolCallView::Timeline { query }),
        text_value(field(args, "q"@)) is None ==> call_of("search_wiki"@, args) == Err::<
            ToolCallView,
            _,
        >(ApiErrorView::BadRequest("search_wiki requires 'q'"@)),
        text_value(field(args, "document_id"@)) is None ==> call_of("read_page"@, args) == Err::<
            ToolCallView,
            _,
        >(ApiErrorView::BadRequest("read_page requires 'document_id'"@)),
        text_value(field(args, "id"@)) is None ==> call_of("page_diff"@, args) == Err::<
            ToolCallView,
            _,
        >(ApiErrorView::BadRequest("page_diff requires 'id'"@)),
{
    lemma_tool_names_differ();
    assert(tool_names()[0] == "search_wiki"@);
    assert(tool_names()[1] == "read_page"@);
    assert(tool_names()[2] == "wiki_graph"@);
    assert(tool_names()[3] == "recent_changes"@);
    assert(tool_names()[4] == "event_timeline"@);
    assert(tool_names()[5] == "page_diff"@);
    assert(tool_names()[6] == "recent_activity"@);
    assert(tool_names()[7] == "list_merged_prs"@);
    assert(tool_names()[8] == "list_linear_issues"@);
    assert(tool_names()[9] == "list_slack_activity"@);
    reveal_strlit("q");
    reveal_strlit("limit");
    assert("q"@.len() == 1);
    assert("limit"@.len() == 5);
}

// What requests are answered with.

proof fn lemma_rpc_fields(id: JsonView, result: JsonView, code: int, message: Seq<char>)
    ensures
        field(result_json(id, result), "jsonrpc"@) == Some(JsonView::Str("2.0"@)),
        field(result_json(id, result), "id"@) == Some(id),
        field(result_json(id, result), "result"@) == Some(result),
        field(result_json(id, result), "error"@) is None,
        field(error_json(id, code, message), "jsonrpc"@) == Some(JsonView::Str("2.0"@)),
        field(error_json(id, code, message), "id"@) == Some(id),
        field(error_json(id, code, message), "result"@) is None,
        field(error_json(id, code, message), "error"@) matches Some(error) && field(
            error,
            "code"@,
        ) == Some(JsonView::Int(code)) && field(error, "message"@) == Some(JsonView::Str(message)),
{
    reveal_strlit("jsonrpc");
    reveal_strlit("id");
    reveal_strlit("result");
    reveal_strlit("error");
    reveal_strlit("code");
    reveal_strlit("message");
    assert("jsonrpc"@.len() == 7);
    assert("id"@.len() == 2);
    assert("result"@.len() == 6);
    assert("error"@.len() == 5);
    assert("code"@.len() == 4);
    assert("message"@.len() == 7);
    assert("jsonrpc"@[0] == 'j');
    assert("message"@[0] == 'm');
}

/// A result says that it is one of the protocol's second version, which request it answers and what
/// with, and has no error; an error says its code and its message, and has no result.
pub proof fn law_answers_have_their_form(
    id: JsonView,
    result: JsonView,
    code: int,
    message: Seq<char>,
)
    ensures
        field(result_json(id, result), "jsonrpc"@) == Some(JsonView::Str("2.0"@)),
        field(result_json(id, result), "id"@) == Some(id),
        field(result_json(id, result), "result"@) == Some(result),
        field(result_json(id, result), "error"@) is None,
        field(error_json(id, code, message), "jsonrpc"@) == Some(JsonView::Str("2.0"@)),
        field(error_json(id, code, message), "id"@) == Some(id),
        field(error_json(id, code, message), "result"@) is None,
        field(error_json(id, code, message), "error"@) matches Some(error) && field(
            error,
            "code"@,
        ) == Some(JsonView::Int(code)) && field(error, "message"@) == Some(JsonView::Str(message)),
{
    lemma_rpc_fields(id, result, code, message);
}

/// The answer to a tool call that failed is a result all the same: one text, with the message
/// behind `error: `, and the flag of an error.
pub proof fn law_failure_is_told(id: JsonView, message: Seq<char>)
    ensures
        ({
            let answer = call_answer(id, Err(message));
            let result = field_or(answer, "result"@, JsonView::Null);
            &&& field(answer, "id"@) == Some(id)
            &&& field(answer, "error"@) is None
            &&& carried_text(result) == Some("error: "@ + message)
            &&& field(result, "isError"@) == Some(JsonView::Bool(true))
            &&& text_value(field(items_of(field(result, "content"@))[0], "type"@)) == Some("text"@)
        }),
{
    lemma_rpc_fields(id, content_json("error: "@ + message, true), 0, message);
    reveal_strlit("content");
    reveal_strlit("isError");
    reveal_strlit("type");
    reveal_strlit("text");
    assert("content"@.len() == 7);
    assert("isError"@.len() == 7);
    assert("type"@.len() == 4);
    assert("text"@.len() == 4);
    assert("content"@[0] == 'c');
    assert("isError"@[0] == 'i');
    assert("type"@[1] == 'y');
    assert("text"@[1] == 'e');
}

/// The result that answers a request, where it is answered with one.
pub open spec fn result_of(step: StepView) -> Option<JsonView> {
    match step {
        StepView::Answer(answer) => field(answer, "result"@),
        _ => None,
    }
}

proof fn lemma_methods_differ()
    ensures
        "initialize"@ != "notifications/initialized"@,
        "initialize"@ != "tools/list"@,
        "initialize"@ != "tools/call"@,
        "initialize"@ != "ping"@,
        "notifications/initialized"@ != "tools/list"@,
        "notifications/initialized"@ != "tools/call"@,
        "notifications/initialized"@ != "ping"@,
        "tools/list"@ != "tools/call"@,
        "tools/list"@ != "ping"@,
        "tools/call"@ != "ping"@,
{
    reveal_strlit("initialize");
    reveal_strlit("notifications/initialized");
    reveal_strlit("tools/list");
    reveal_strlit("tools/call");
    reveal_strlit("ping");
    assert("initialize"@.len() == 10);
    assert("notifications/initialized"@.len() == 25);
    assert("tools/list"@.len() == 10);
    assert("tools/call"@.len() == 10);
    assert("ping"@.len() == 4);
    assert("initialize"@[0] == 'i');
    assert("tools/list"@[0] == 't');
    assert("tools/call"@[0] == 't');
    assert("tools/list"@[6] == 'l');
    assert("tools/call"@[6] == 'c');
}

/// What is done about a request of each method. The greeting names the protocol, the offer of tools
/// and the server; a notice is taken note of; the list of tools is the catalog; a ping is answered
/// with nothing; and any other method is refused by its name.
pub proof fn law_methods_are_answered(more: Map<Seq<char>, JsonView>, method: Seq<char>)
    ensures
        ({
            let request = JsonView::Object(more.insert("method"@, JsonView::Str(method)));
            let step = step_of(request);
            &&& method == "initialize"@ ==> {
                let result = result_of(step);
                &&& result is Some
                &&& field(result->0, "protocolVersion"@) == Some(JsonView::Str("2024-11-05"@))
                &&& field(result->0, "capabilities"@) matches Some(offer) && field(
                    offer,
                    "tools"@,
                ) == Some(JsonView::Object(Map::empty()))
                &&& field(result->0, "serverInfo"@) matches Some(server) && field(server, "name"@)
                    == Some(JsonView::Str("darkbloom-wiki-mcp"@)) && field(server, "version"@)
                    == Some(JsonView::Str("1.0.0"@))
            }
            &&& method == "notifications/initialized"@ ==> step == StepView::Accept
            &&& method == "tools/list"@ ==> {
                let result = result_of(step);
                &&& result is Some
                &&& field(result->0, "tools"@) == Some(JsonView::Array(catalog()))
            }
            &&& method == "ping"@ ==> result_of(step) == Some(JsonView::Object(Map::empty()))
            &&& method != "initialize"@ && method != "notifications/initialized"@ && method
                != "tools/list"@ && method != "tools/call"@ && method != "ping"@ ==> {
                &&& step matches StepView::Answer(answer) && field(answer, "error"@) matches Some(
                    error,
                ) && field(error, "code"@) == Some(JsonView::Int(-32601)) && field(
                    error,
                    "message"@,
                ) == Some(JsonView::Str("method not found: "@ + method))
            }
        }),
{
    let request = JsonView::Object(more.insert("method"@, JsonView::Str(method)));
    let id = id_of(request);
    lemma_methods_differ();
    lemma_rpc_fields(id, greeting(), -32601, "method not found: "@ + method);
    lemma_rpc_fields(
        id,
        JsonView::Object(map!["tools"@ => JsonView::Array(catalog())]),
        0,
        Seq::empty(),
    );
    lemma_rpc_fields(id, JsonView::Object(Map::empty()), 0, Seq::empty());
    reveal_strlit("protocolVersion");
    reveal_strlit("capabilities");
    reveal_strlit("serverInfo");
    reveal_strlit("name");
    reveal_strlit("version");
    assert("protocolVersion"@.len() == 15);
    assert("capabilities"@.len() == 12);
    assert("serverInfo"@.len() == 10);
    assert("name"@.len() == 4);
    assert("version"@.len() == 7);
}

/// A call of a tool is made with the name and the arguments that its request states, and without
/// arguments where it states none; a refused call fails, and either is answered under the id of the
/// request, which is null where it has none.
pub proof fn law_call_is_that_of_request(
    more: Map<Seq<char>, JsonView>,
    id: JsonView,
    name: Seq<char>,
    args: JsonView,
    others: Map<Seq<char>, JsonView>,
)
    ensures
        ({
            let params = JsonView::Object(
                others.insert("name"@, JsonView::Str(name)).insert("arguments"@, args),
            );
            let request = JsonView::Object(
                more.insert("id"@, id).insert("method"@, JsonView::Str("tools/call"@)).insert(
                    "params"@,
                    params,
                ),
            );
            match call_of(name, args) {
                Ok(call) => step_of(request) == (StepView::Call { id, call }),
                Err(error) => step_of(request) == (StepView::Fail { id, error }),
            }
        }),
        ({
            let params = JsonView::Object(map!["name"@ => JsonView::Str(name)]);
            let request = JsonView::Object(
                map!["method"@ => JsonView::Str("tools/call"@), "params"@ => params],
            );
            match call_of(name, JsonView::Object(Map::empty())) {
                Ok(call) => step_of(request) == (StepView::Call { id: JsonView::Null, call }),
                Err(error) => step_of(request) == (StepView::Fail { id: JsonView::Null, error }),
            }
        }),
{
    lemma_methods_differ();
    reveal_strlit("id");
    reveal_strlit("method");
    reveal_strlit("params");
    reveal_strlit("name");
    reveal_strlit("arguments");
    assert("id"@.len() == 2);
    assert("method"@.len() == 6);
    assert("params"@.len() == 6);
    assert("name"@.len() == 4);
    assert("arguments"@.len() == 9);
    assert("method"@[0] == 'm');
    assert("params"@[0] == 'p');
}

/// A header is read as a text exactly where all of its bytes are visible characters or tabs, and
/// then each byte is the character of its code.
pub proof fn law_header_is_read(bytes: Seq<u8>, i: int)
    ensures
        header_value(bytes) is Some <==> forall|k: int|
            0 <= k < bytes.len() ==> (#[trigger] bytes[k] == 9 || (32 <= bytes[k] && bytes[k]
                <= 126)),
        header_value(bytes) matches Some(s) ==> s.len() == bytes.len() && (0 <= i < s.len()
            ==> s[i] as u32 == bytes[i] as u32),
{
    if forall|k: int|
        0 <= k < bytes.len() ==> (#[trigger] bytes[k] == 9 || (32 <= bytes[k] && bytes[k]
            <= 126)) {
        assert forall|k: int| 0 <= k < bytes.len() implies visible(#[trigger] bytes[k]) by {}
    }
    if header_value(bytes) is Some {
        assert forall|k: int| 0 <= k < bytes.len() implies (#[trigger] bytes[k] == 9 || (32
            <= bytes[k] && bytes[k] <= 126)) by {
            assert(visible(bytes[k]));
        }
    }
}

/// The schema of what an entry of the catalog takes.
pub open spec fn input_of(entry: JsonView) -> JsonView {
    field_or(entry, "inputSchema"@, JsonView::Null)
}

/// The type of an argument that an entry of the catalog takes, where it takes it.
pub open spec fn argument_type(entry: JsonView, name: Seq<char>) -> Option<Seq<char>> {
    text_value(
        field(
            field_or(
                field_or(input_of(entry), "properties"@, JsonView::Null),
                name,
                JsonView::Null,
            ),
            "type"@,
        ),
    )
}

proof fn lemma_properties(
    name: Seq<char>,
    description: Seq<char>,
    properties: Map<Seq<char>, JsonView>,
    required: Seq<char>,
)
    ensures
        field_or(
            input_of(tool(name, description, schema(properties))),
            "properties"@,
            JsonView::Null,
        ) == JsonView::Object(properties),
        field_or(
            input_of(tool(name, description, strict_schema(properties, required))),
            "properties"@,
            JsonView::Null,
        ) == JsonView::Object(properties),
        text_value(field(input_of(tool(name, description, schema(properties))), "type"@)) == Some(
            "object"@,
        ),
        text_value(
            field(input_of(tool(name, description, strict_schema(properties, required))), "type"@),
        ) == Some("object"@),
{
    lemma_tool_fields(name, description, schema(properties));
    lemma_tool_fields(name, description, strict_schema(properties, required));
    reveal_strlit("type");
    reveal_strlit("properties");
    reveal_strlit("required");
    assert("type"@.len() == 4);
    assert("properties"@.len() == 10);
    assert("required"@.len() == 8);
}

proof fn lemma_types(kind: Seq<char>, description: Seq<char>)
    ensures
        text_value(field(typed(kind), "type"@)) == Some(kind),
        text_value(field(described(kind, description), "type"@)) == Some(kind),
        text_value(field(sources_schema(), "type"@)) == Some("array"@),
{
    reveal_strlit("type");
    reveal_strlit("description");
    reveal_strlit("items");
    assert("type"@.len() == 4);
    assert("description"@.len() == 11);
    assert("items"@.len() == 5);
}

/// The catalog lists the ten tools in their order. Each takes an object, and says which arguments it
/// takes and of which types: a search takes its query and a limit, a page its id, a diff its id, the
/// live feed a list of sources, and all that ask about a window its days, its start and its end. A
/// search must have its query, a page and a diff their id.
pub proof fn law_catalog_lists_tools(i: int)
    requires
        0 <= i < tool_names().len(),
    ensures
        catalog().len() == 10,
        tool_name(catalog()[i]) == tool_names()[i],
        text_value(field(input_of(catalog()[i]), "type"@)) == Some("object"@),
        argument_type(catalog()[0], "q"@) == Some("string"@),
        argument_type(catalog()[0], "limit"@) == Some("integer"@),
        argument_type(catalog()[1], "document_id"@) == Some("string"@),
        argument_type(catalog()[5], "id"@) == Some("string"@),
        argument_type(catalog()[6], "sources"@) == Some("array"@),
        3 <= i ==> argument_type(catalog()[i], "days"@) == Some("number"@) && argument_type(
            catalog()[i],
            "since"@,
        ) == Some("string"@) && argument_type(catalog()[i], "until"@) == Some("string"@),
        required_fields(catalog()[0]) == seq![JsonView::Str("q"@)],
        required_fields(catalog()[1]) == seq![JsonView::Str("document_id"@)],
        required_fields(catalog()[5]) == seq![JsonView::Str("id"@)],
        i != 0 && i != 1 && i != 5 ==> required_fields(catalog()[i]).len() == 0,
{
    lemma_catalog_entry(0);
    lemma_catalog_entry(1);
    lemma_catalog_entry(5);
    lemma_catalog_entry(i);
    assert forall|name: Seq<char>, description: Seq<char>, properties: Map<Seq<char>, JsonView>|
        field_or(
            input_of(#[trigger] tool(name, description, schema(properties))),
            "properties"@,
            JsonView::Null,
        ) == JsonView::Object(properties) && text_value(
            field(input_of(tool(name, description, schema(properties))), "type"@),
        ) == Some("object"@) by {
        lemma_properties(name, description, properties, Seq::empty());
    }
    assert forall|
        name: Seq<char>,
        description: Seq<char>,
        properties: Map<Seq<char>, JsonView>,
        required: Seq<char>,
    |
        field_or(
            input_of(#[trigger] tool(name, description, strict_schema(properties, required))),
            "properties"@,
            JsonView::Null,
        ) == JsonView::Object(properties) && text_value(
            field(input_of(tool(name, description, strict_schema(properties, required))), "type"@),
        ) == Some("object"@) by {
        lemma_properties(name, description, properties, required);
    }
    assert forall|kind: Seq<char>| text_value(field(#[trigger] typed(kind), "type"@)) == Some(
        kind,
    ) by {
        lemma_types(kind, Seq::empty());
    }
    assert forall|kind: Seq<char>, description: Seq<char>|
        text_value(field(#[trigger] described(kind, description), "type"@)) == Some(kind) by {
        lemma_types(kind, description);
    }
    lemma_types(Seq::empty(), Seq::empty());
    reveal_strlit("q");
    reveal_strlit("limit");
    reveal_strlit("id");
    reveal_strlit("days");
    reveal_strlit("since");
    reveal_strlit("until");
    reveal_strlit("sources");
    assert("q"@.len() == 1);
    assert("limit"@.len() == 5);
    assert("id"@.len() == 2);
    assert("days"@.len() == 4);
    assert("since"@.len() == 5);
    assert("until"@.len() == 5);
    assert("sources"@.len() == 7);
    assert("limit"@[0] == 'l');
    assert("since"@[0] == 's');
    assert("until"@[0] == 'u');
}

/// What a call asks for, by what it holds.
pub proof fn law_call_is_its_fields(
    query: TimeQuery,
    text: String,
    limit: Option<i64>,
    list: Vec<String>,
)
    ensures
        query@.days == optional_number(query.days),
        query@.since == optional_text(query.since),
        query@.until == optional_text(query.until),
        (ToolCall::Search { q: text, limit })@ == (ToolCallView::Search { q: text@, limit }),
        (ToolCall::Page { document_id: text })@ == (ToolCallView::Page { document_id: text@ }),
        ToolCall::Graph@ == ToolCallView::Graph,
        (ToolCall::Changes { query })@ == (ToolCallView::Changes { query: query@ }),
        (ToolCall::Timeline { query })@ == (ToolCallView::Timeline { query: query@ }),
        (ToolCall::Diff { id: text, query })@ == (ToolCallView::Diff { id: text@, query: query@ }),
        (ToolCall::Activity { query, sources: list })@ == (ToolCallView::Activity {
            query: query@,
            sources: texts(list@),
        }),
{
}

/// What is done about a request, by what it holds.
pub proof fn law_step_is_its_fields(
    refusal: Refusal,
    json: Json,
    call: ToolCall,
    error: ApiError,
    bytes: &[u8],
)
    ensures
        Step::Refuse(refusal)@ == StepView::Refuse(refusal),
        Step::Accept@ == StepView::Accept,
        Step::Answer(json)@ == StepView::Answer(json@),
        (Step::Call { id: json, call })@ == (StepView::Call { id: json@, call: call@ }),
        (Step::Fail { id: json, error })@ == (StepView::Fail { id: json@, error: error@ }),
        header_bytes(Some(bytes)) == Some(bytes@),
        header_bytes(None) is None,
{
}

/// The description of an entry of the catalog.
pub open spec fn about(entry: JsonView) -> Option<Seq<char>> {
    text_value(field(entry, "description"@))
}

proof fn lemma_about(name: Seq<char>, description: Seq<char>, input: JsonView)
    ensures
        about(tool(name, description, input)) == Some(description),
{
    reveal_strlit("name");
    reveal_strlit("description");
    reveal_strlit("inputSchema");
    assert("name"@.len() == 4);
    assert("description"@.len() == 11);
    assert("inputSchema"@.len() == 11);
    assert("description"@[0] == 'd');
    assert("inputSchema"@[0] == 'i');
}

/// What the catalog says of each tool.
pub proof fn law_catalog_describes_tools()
    ensures
        about(catalog()[0]) == Some(
            "Full-text search the Darkbloom/Centaur knowledge base. Returns matching wiki pages (title, type, snippet, url)."@,
        ),
        about(catalog()[1]) == Some(
            "Read a single wiki page's full markdown body by document_id (e.g. 'wiki:entity:coordinator-deployment')."@,
        ),
        about(catalog()[2]) == Some(
            "The full wiki knowledge graph: every page (goal/project/entity/topic) as a node, with [[wikilink]] edges, degree, and backlinks. Use to list all pages or understand structure."@,
        ),
        about(catalog()[3]) == Some(
            "Pages changed and sources ingested in a recent window. Args: days (number) OR since/until (ISO timestamps)."@,
        ),
        about(catalog()[4]) == Some(
            "Cross-stream event feed (PRs, Linear issues, provider Slack, releases, directives, coordinator telemetry, news) in a window, oldest->newest. Args: days OR since/until."@,
        ),
        about(catalog()[5]) == Some(
            "Unified diff of a wiki page's body over a window (what changed). Args: id (document_id), plus days OR since/until."@,
        ),
        about(catalog()[6]) == Some(
            "LIVE product-lifecycle feed: what actually happened across GitHub (merged PRs + releases), Linear (issues + state), and provider/internal Slack in a recent window, oldest->newest. Reads the SAME live sources the Centaur agent reads — NOT the wiki's synthesized/lagging state. Use this for 'what happened in the last 24h / this week'. Args: days (number, default 1) OR since/until (ISO); optional sources (array subset of [\"github\",\"pr\",\"release\",\"linear\",\"slack\"])."@,
        ),
        about(catalog()[7]) == Some(
            "LIVE merged GitHub pull requests (with bodies) across the tracked repos in a window. Args: days OR since/until."@,
        ),
        about(catalog()[8]) == Some(
            "LIVE Linear issues updated in a window (identifier, title, state, assignee, url). Args: days OR since/until."@,
        ),
        about(catalog()[9]) == Some(
            "LIVE Slack messages from the tracked provider + internal channels in a window (channel history). Args: days OR since/until."@,
        ),
        argument_type(catalog()[2], "days"@) is None,
        field_or(input_of(catalog()[2]), "properties"@, JsonView::Null) == JsonView::Object(
            Map::empty(),
        ),
{
    assert forall|name: Seq<char>, description: Seq<char>, input: JsonView|
        about(#[trigger] tool(name, description, input)) == Some(description) by {
        lemma_about(name, description, input);
    }
    lemma_properties("wiki_graph"@, ABOUT_GRAPH@, Map::empty(), Seq::empty());
}

/// The schema of an argument that an entry of the catalog takes.
pub open spec fn argument(entry: JsonView, name: Seq<char>) -> JsonView {
    field_or(
        field_or(input_of(entry), "properties"@, JsonView::Null),
        name,
        JsonView::Null,
    )
}

proof fn lemma_described(kind: Seq<char>, description: Seq<char>)
    ensures
        about(described(kind, description)) == Some(description),
        about(sources_schema()) == Some(
            "Optional subset: github, pr, release, linear, slack. Default: all."@,
        ),
        text_value(
            field(field_or(sources_schema(), "items"@, JsonView::Null), "type"@),
        ) == Some("string"@),
{
    reveal_strlit("type");
    reveal_strlit("description");
    reveal_strlit("items");
    assert("type"@.len() == 4);
    assert("description"@.len() == 11);
    assert("items"@.len() == 5);
}

/// What the catalog says of the arguments that it describes; the sources are strings.
pub proof fn law_catalog_describes_arguments()
    ensures
        about(argument(catalog()[0], "q"@)) == Some(
            "Search query."@,
        ),
        about(argument(catalog()[0], "limit"@)) == Some(
            "Max results (default 20)."@,
        ),
        about(argument(catalog()[1], "document_id"@)) == Some(
            "The wiki page id, e.g. wiki:topic:release-process."@,
        ),
        about(argument(catalog()[3], "days"@)) == Some(
            "Look back this many days (e.g. 7)."@,
        ),
        about(argument(catalog()[3], "since"@)) == Some(
            "ISO start time (alternative to days)."@,
        ),
        about(argument(catalog()[3], "until"@)) == Some(
            "ISO end time (optional)."@,
        ),
        about(argument(catalog()[5], "id"@)) == Some(
            "The wiki page document_id."@,
        ),
        about(argument(catalog()[6], "days"@)) == Some(
            "Look back this many days (default 1)."@,
        ),
        about(argument(catalog()[6], "since"@)) == Some(
            "ISO start (alternative to days)."@,
        ),
        about(argument(catalog()[6], "until"@)) == Some(
            "ISO end (optional)."@,
        ),
        about(argument(catalog()[6], "sources"@)) == Some(
            "Optional subset: github, pr, release, linear, slack. Default: all."@,
        ),
        text_value(
            field(
                field_or(argument(catalog()[6], "sources"@), "items"@, JsonView::Null),
                "type"@,
            ),
        ) == Some("string"@),
{
    lemma_catalog_entry(0);
    lemma_catalog_entry(1);
    lemma_catalog_entry(3);
    lemma_catalog_entry(5);
    lemma_catalog_entry(6);
    assert forall|name: Seq<char>, description: Seq<char>, properties: Map<Seq<char>, JsonView>|
        field_or(
            input_of(#[trigger] tool(name, description, schema(properties))),
            "properties"@,
            JsonView::Null,
        ) == JsonView::Object(properties) by {
        lemma_properties(name, description, properties, Seq::empty());
    }
    assert forall|
        name: Seq<char>,
        description: Seq<char>,
        properties: Map<Seq<char>, JsonView>,
        required: Seq<char>,
    |
        field_or(
            input_of(#[trigger] tool(name, description, strict_schema(properties, required))),
            "properties"@,
            JsonView::Null,
        ) == JsonView::Object(properties) by {
        lemma_properties(name, description, properties, required);
    }
    assert forall|kind: Seq<char>, description: Seq<char>|
        about(#[trigger] described(kind, description)) == Some(description) by {
        lemma_described(kind, description);
    }
    lemma_described(Seq::empty(), Seq::empty());
    reveal_strlit("q");
    reveal_strlit("limit");
    reveal_strlit("id");
    reveal_strlit("days");
    reveal_strlit("since");
    reveal_strlit("until");
    reveal_strlit("sources");
    assert("q"@.len() == 1);
    assert("limit"@.len() == 5);
    assert("id"@.len() == 2);
    assert("days"@.len() == 4);
    assert("since"@.len() == 5);
    assert("until"@.len() == 5);
    assert("sources"@.len() == 7);
    assert("limit"@[0] == 'l');
    assert("since"@[0] == 's');
    assert("until"@[0] == 'u');
}

} // verus!
