use centaur_wiki::catalog::mcp_tools;
use centaur_wiki::error::ApiError;
use centaur_wiki::json::{Json, Number};
use centaur_wiki::mcp::{
    answer_call, mcp_authorized, mcp_call_tool, mcp_handler, rpc_error, rpc_result, tool_content,
    tool_failure, Refusal, Step, TimeQuery, ToolCall,
};
use serde_json::Value;

fn value(json: &Json) -> Value {
    match json {
        Json::Null => Value::Null,
        Json::Bool(b) => Value::Bool(*b),
        Json::Int(n) => Value::from(i64::try_from(*n).unwrap()),
        Json::Float(bits) => Value::from(f64::from_bits(*bits)),
        Json::Str(s) => Value::from(s.as_str()),
        Json::Array(items) => Value::Array(items.iter().map(value).collect()),
        Json::Object(fields) => {
            Value::Object(fields.iter().map(|(k, v)| (k.clone(), value(v))).collect())
        }
    }
}

fn parsed(text: &str) -> Value {
    serde_json::from_str(text).unwrap()
}

fn read(v: &Value) -> Json {
    match v {
        Value::Null => Json::Null,
        Value::Bool(b) => Json::Bool(*b),
        Value::Number(n) => match n.as_i64() {
            Some(n) => Json::Int(n as i128),
            None => Json::Float(n.as_f64().unwrap().to_bits()),
        },
        Value::String(s) => Json::Str(s.clone()),
        Value::Array(items) => Json::Array(items.iter().map(read).collect()),
        Value::Object(fields) => {
            Json::Object(fields.iter().map(|(k, v)| (k.clone(), read(v))).collect())
        }
    }
}

fn json(text: &str) -> Json {
    read(&parsed(text))
}

const TOKEN: Option<&str> = Some("s3cret");
const HEADER: Option<&[u8]> = Some(b"Bearer s3cret");

fn handle(request: &str) -> Step {
    mcp_handler(TOKEN, HEADER, &json(request))
}

fn answer(request: &str) -> Value {
    match handle(request) {
        Step::Answer(json) => value(&json),
        other => panic!("{other:?}"),
    }
}

fn anytime() -> TimeQuery {
    TimeQuery { days: None, since: None, until: None }
}

#[test]
fn a_relay_without_a_token_is_hidden() {
    assert_eq!(mcp_authorized(None, HEADER), Err(Refusal::NotFound));
    assert_eq!(mcp_authorized(Some(""), Some(b"Bearer ")), Err(Refusal::NotFound));
    assert_eq!(
        mcp_handler(None, HEADER, &json(r#"{"method": "ping"}"#)),
        Step::Refuse(Refusal::NotFound)
    );
}

#[test]
fn the_token_must_match_exactly() {
    assert_eq!(mcp_authorized(TOKEN, HEADER), Ok(()));
    for header in [
        None,
        Some(&b""[..]),
        Some(b"s3cret"),
        Some(b"bearer s3cret"),
        Some(b"Bearer s3cre"),
        Some(b"Bearer s3crets"),
        Some(b"Bearer S3cret"),
        Some(b"Bearer  s3cret"),
        Some(b"Bearer s3cret\xff"),
    ] {
        assert_eq!(mcp_authorized(TOKEN, header), Err(Refusal::Unauthorized), "{header:?}");
    }
    assert_eq!(mcp_authorized(Some("é"), Some("Bearer é".as_bytes())), Err(Refusal::Unauthorized));
    assert_eq!(mcp_authorized(Some("a\tb"), Some(b"Bearer a\tb")), Ok(()));
}

#[test]
fn a_refused_request_is_not_read() {
    let request = json(r#"{"method": "initialize", "id": 1}"#);
    assert_eq!(
        mcp_handler(TOKEN, Some(b"Bearer no"), &request),
        Step::Refuse(Refusal::Unauthorized)
    );
}

#[test]
fn header_texts_are_those_of_the_http_crate() {
    for b in 0..=255u8 {
        let Ok(header) = axum::http::HeaderValue::from_bytes(&[b'B', b]) else {
            continue;
        };
        let mut bytes = b"Bearer x".to_vec();
        bytes.push(b);
        let token = format!("x{}", b as char);
        let let_in = mcp_authorized(Some(&token), Some(&bytes)).is_ok();
        assert_eq!(let_in, header.to_str().is_ok(), "{b}");
    }
}

#[test]
fn the_relay_introduces_itself() {
    assert_eq!(
        answer(r#"{"jsonrpc": "2.0", "id": 1, "method": "initialize"}"#),
        parsed(
            r#"{"jsonrpc": "2.0", "id": 1, "result": {"protocolVersion": "2024-11-05",
                "capabilities": {"tools": {}},
                "serverInfo": {"name": "darkbloom-wiki-mcp", "version": "1.0.0"}}}"#
        )
    );
}

#[test]
fn the_notification_is_acknowledged() {
    assert_eq!(handle(r#"{"method": "notifications/initialized"}"#), Step::Accept);
}

#[test]
fn a_ping_is_answered() {
    assert_eq!(
        answer(r#"{"id": {"a": [1, null]}, "method": "ping"}"#),
        parsed(r#"{"jsonrpc": "2.0", "id": {"a": [1, null]}, "result": {}}"#)
    );
}

#[test]
fn unknown_methods_are_errors() {
    assert_eq!(
        answer(r#"{"id": "x", "method": "resources/list"}"#),
        parsed(
            r#"{"jsonrpc": "2.0", "id": "x",
                "error": {"code": -32601, "message": "method not found: resources/list"}}"#
        )
    );
    assert_eq!(
        answer("[]"),
        parsed(
            r#"{"jsonrpc": "2.0", "id": null,
                "error": {"code": -32601, "message": "method not found: "}}"#
        )
    );
    assert_eq!(answer(r#"{"id": 2, "method": 7}"#)["error"]["message"], "method not found: ");
}

#[test]
fn the_catalog_is_listed() {
    let listed = answer(r#"{"id": 1, "method": "tools/list"}"#);
    assert_eq!(listed["result"]["tools"], value(&mcp_tools()));
    let tools = listed["result"]["tools"].as_array().unwrap().clone();
    let names: Vec<&str> = tools.iter().map(|t| t["name"].as_str().unwrap()).collect();
    assert_eq!(
        names,
        [
            "search_wiki",
            "read_page",
            "wiki_graph",
            "recent_changes",
            "event_timeline",
            "page_diff",
            "recent_activity",
            "list_merged_prs",
            "list_linear_issues",
            "list_slack_activity"
        ]
    );
    assert_eq!(
        tools[0],
        parsed(
            r#"{"name": "search_wiki",
                "description": "Full-text search the Darkbloom/Centaur knowledge base. Returns matching wiki pages (title, type, snippet, url).",
                "inputSchema": {"type": "object", "properties": {
                    "q": {"type": "string", "description": "Search query."},
                    "limit": {"type": "integer", "description": "Max results (default 20)."}},
                    "required": ["q"]}}"#
        )
    );
    assert_eq!(
        tools[2]["inputSchema"],
        parsed(r#"{"type": "object", "properties": {}}"#)
    );
    assert_eq!(
        tools[5]["inputSchema"],
        parsed(
            r#"{"type": "object", "properties": {
                "id": {"type": "string", "description": "The wiki page document_id."},
                "days": {"type": "number"}, "since": {"type": "string"},
                "until": {"type": "string"}}, "required": ["id"]}"#
        )
    );
    assert_eq!(
        tools[6]["inputSchema"]["properties"]["sources"],
        parsed(
            r#"{"type": "array", "items": {"type": "string"},
                "description": "Optional subset: github, pr, release, linear, slack. Default: all."}"#
        )
    );
}

#[test]
fn every_tool_of_the_catalog_can_be_called() {
    let args = json(r#"{"q": "x", "document_id": "y", "id": "z"}"#);
    for tool in value(&mcp_tools()).as_array().unwrap() {
        assert!(mcp_call_tool(tool["name"].as_str().unwrap(), &args).is_ok(), "{tool}");
    }
}

#[test]
fn arguments_are_read() {
    assert_eq!(
        mcp_call_tool("search_wiki", &json(r#"{"q": "a", "limit": 5}"#)),
        Ok(ToolCall::Search { q: "a".to_owned(), limit: Some(5) })
    );
    assert_eq!(
        mcp_call_tool("search_wiki", &json(r#"{"q": "a", "limit": 5.5}"#)),
        Ok(ToolCall::Search { q: "a".to_owned(), limit: None })
    );
    assert_eq!(
        mcp_call_tool("read_page", &json(r#"{"document_id": "p"}"#)),
        Ok(ToolCall::Page { document_id: "p".to_owned() })
    );
    assert_eq!(mcp_call_tool("wiki_graph", &Json::Null), Ok(ToolCall::Graph));
    assert_eq!(
        mcp_call_tool("recent_changes", &json(r#"{"days": 7, "since": 1, "until": "u"}"#)),
        Ok(ToolCall::Changes {
            query: TimeQuery {
                days: Some(Number::Int(7)),
                since: None,
                until: Some("u".to_owned())
            }
        })
    );
    assert_eq!(
        mcp_call_tool("event_timeline", &json(r#"{"days": 0.5}"#)),
        Ok(ToolCall::Timeline {
            query: TimeQuery {
                days: Some(Number::Float(0.5f64.to_bits())),
                since: None,
                until: None
            }
        })
    );
    assert_eq!(
        mcp_call_tool("page_diff", &json(r#"{"id": "p", "since": "s"}"#)),
        Ok(ToolCall::Diff {
            id: "p".to_owned(),
            query: TimeQuery { days: None, since: Some("s".to_owned()), until: None }
        })
    );
}

#[test]
fn live_tools_name_their_sources() {
    let call = |name: &str, args: &str| mcp_call_tool(name, &json(args));
    let feed = |names: &[&str]| {
        Ok(ToolCall::Activity {
            query: anytime(),
            sources: names.iter().map(|s| s.to_string()).collect(),
        })
    };
    assert_eq!(call("recent_activity", "{}"), feed(&[]));
    assert_eq!(call("recent_activity", r#"{"sources": ["pr", 3, "slack"]}"#), feed(&["pr", "slack"]));
    assert_eq!(call("recent_activity", r#"{"sources": "pr"}"#), feed(&[]));
    assert_eq!(call("list_merged_prs", r#"{"sources": ["slack"]}"#), feed(&["pr"]));
    assert_eq!(call("list_linear_issues", "{}"), feed(&["linear"]));
    assert_eq!(call("list_slack_activity", "{}"), feed(&["slack"]));
}

#[test]
fn calls_without_what_they_need_are_refused() {
    for (name, message) in [
        ("search_wiki", "search_wiki requires 'q'"),
        ("read_page", "read_page requires 'document_id'"),
        ("page_diff", "page_diff requires 'id'"),
        ("drop_table", "unknown tool: drop_table"),
        ("", "unknown tool: "),
    ] {
        assert_eq!(
            mcp_call_tool(name, &json(r#"{"q": 1, "id": null}"#)),
            Err(ApiError::BadRequest(message.to_owned()))
        );
    }
}

#[test]
fn calls_are_planned() {
    assert_eq!(
        handle(
            r#"{"id": 3, "method": "tools/call",
                "params": {"name": "read_page", "arguments": {"document_id": "p"}}}"#
        ),
        Step::Call { id: Json::Int(3), call: ToolCall::Page { document_id: "p".to_owned() } }
    );
    assert_eq!(
        handle(r#"{"id": 4, "method": "tools/call", "params": {"name": "recent_changes"}}"#),
        Step::Call { id: Json::Int(4), call: ToolCall::Changes { query: anytime() } }
    );
    assert_eq!(
        handle(r#"{"method": "tools/call"}"#),
        Step::Fail {
            id: Json::Null,
            error: ApiError::BadRequest("unknown tool: ".to_owned())
        }
    );
    assert_eq!(
        handle(r#"{"id": 5, "method": "tools/call", "params": {"name": "page_diff"}}"#),
        Step::Fail {
            id: Json::Int(5),
            error: ApiError::BadRequest("page_diff requires 'id'".to_owned())
        }
    );
}

#[test]
fn outcomes_of_calls_are_results() {
    assert_eq!(
        value(&answer_call(Json::Int(3), Ok("{}"))),
        parsed(
            r#"{"jsonrpc": "2.0", "id": 3, "result":
                {"content": [{"type": "text", "text": "{}"}], "isError": false}}"#
        )
    );
    assert_eq!(
        value(&answer_call(Json::Int(3), Err("wiki page not found"))),
        parsed(
            r#"{"jsonrpc": "2.0", "id": 3, "result":
                {"content": [{"type": "text", "text": "error: wiki page not found"}],
                 "isError": true}}"#
        )
    );
    assert_eq!(value(&tool_content("x"))["isError"], false);
    assert_eq!(value(&tool_failure("x"))["content"][0]["text"], "error: x");
}

#[test]
fn the_text_of_an_answer_reads_back_as_the_output() {
    let output = parsed(r#"{"a": [1, "é\n", null, true], "b": {"c": {}}, "d": []}"#);
    let text = serde_json::to_string_pretty(&output).unwrap();
    let answered = value(&answer_call(Json::Int(1), Ok(&text)));
    let carried = answered["result"]["content"][0]["text"].as_str().unwrap();
    assert_eq!(carried, text);
    assert_eq!(parsed(carried), output);
    assert_eq!(answered["result"]["content"].as_array().unwrap().len(), 1);
}

#[test]
fn answers_carry_the_id() {
    assert_eq!(
        value(&rpc_result(Json::Str("i".to_owned()), Json::Null)),
        parsed(r#"{"jsonrpc": "2.0", "id": "i", "result": null}"#)
    );
    assert_eq!(
        value(&rpc_error(Json::Null, -1, "m")),
        parsed(r#"{"jsonrpc": "2.0", "id": null, "error": {"code": -1, "message": "m"}}"#)
    );
}
