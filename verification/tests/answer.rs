use centaur_wiki::activity::{live_recent_activity, Credentials, Replies};
use centaur_wiki::answer::{answer, Found};
use centaur_wiki::changes::{wiki_changes, PageChange};
use centaur_wiki::clock::{Timestamp, DAY};
use centaur_wiki::diff::{wiki_diff, Revision};
use centaur_wiki::error::ApiError;
use centaur_wiki::graph::wiki_graph;
use centaur_wiki::json::{put_text, Json};
use centaur_wiki::mcp::{mcp_call_tool, ToolCall};
use centaur_wiki::search::{answer_search, wiki_search, SearchRow};
use centaur_wiki::timeline::{event_timeline, wiki_timeline, TimelineRow};
use serde_json::Value;

fn value(json: &Json) -> Value {
    match json {
        Json::Null => Value::Null,
        Json::Bool(b) => Value::Bool(*b),
        Json::Int(n) => Value::from(i64::try_from(*n).unwrap()),
        Json::Float(bits) => Value::from(f64::from_bits(*bits)),
        Json::Str(s) => Value::from(s.as_str()),
        Json::Array(items) => Value::Array(items.iter().map(value).collect()),
        Json::Object(fields) => {
            Value::Object(fields.iter().map(|(k, v)| (k.clone(), value(v))).collect())
        }
    }
}

const EPOCH: Timestamp = Timestamp { local_nanos: 0, offset_seconds: 0 };
const NEXT_DAY: Timestamp = Timestamp { local_nanos: DAY, offset_seconds: 0 };

fn args(fields: &[(&str, &str)]) -> Json {
    let mut list = Vec::new();
    for (name, text) in fields {
        put_text(&mut list, name, text);
    }
    Json::Object(list)
}

fn tool(name: &str, fields: &[(&str, &str)]) -> ToolCall {
    mcp_call_tool(name, &args(fields)).unwrap()
}

fn row() -> SearchRow {
    SearchRow {
        document_id: "d".to_owned(),
        source_type: "wiki_topic".to_owned(),
        title: "T".to_owned(),
        body: "the body".to_owned(),
        url: String::new(),
        updated_at: None,
    }
}

#[test]
fn a_tool_searches_as_the_route_does() {
    let call = tool("search_wiki", &[("q", " body ")]);
    assert_eq!(call, ToolCall::Search { q: " body ".to_owned(), limit: None });
    let found = Found::Hits { rows: vec![row()] };
    let answered = answer(&call, &found).unwrap();
    assert_eq!(answered, wiki_search(&vec![row()], "body"));
    assert_eq!(answered, answer_search(" body ", None, &vec![row()]));
    let blank = answer(&tool("search_wiki", &[("q", " ")]), &found).unwrap();
    assert_eq!(value(&blank)["results"].as_array().unwrap().len(), 0);
}

#[test]
fn a_refusal_comes_back_unchanged() {
    let refused = Err(ApiError::NotFound("wiki page not found".to_owned()));
    let call = tool("read_page", &[("document_id", "p")]);
    assert_eq!(answer(&call, &Found::Page { row: None }), refused);
    let call = tool("page_diff", &[("id", "p")]);
    let found = Found::States {
        start: EPOCH,
        end: NEXT_DAY,
        title: None,
        before: None,
        after: None,
        latest: None,
    };
    assert_eq!(answer(&call, &found), refused);
}

#[test]
fn a_tool_reports_changes_as_the_route_does() {
    let pages = || {
        vec![PageChange {
            document_id: "d".to_owned(),
            source_type: "wiki_goal".to_owned(),
            title: "T".to_owned(),
            url: String::new(),
            updated_at: Some(EPOCH),
        }]
    };
    let found = Found::Changes { start: EPOCH, end: NEXT_DAY, pages: pages(), sources: None };
    assert_eq!(
        answer(&tool("recent_changes", &[]), &found).unwrap(),
        wiki_changes(EPOCH, NEXT_DAY, &pages(), None)
    );
}

#[test]
fn a_tool_compares_as_the_route_does() {
    let was = || Revision { body: "a\n".to_owned(), revised_at: Some(EPOCH) };
    let is = || Revision { body: "b\n".to_owned(), revised_at: None };
    let found = Found::States {
        start: EPOCH,
        end: NEXT_DAY,
        title: Some("T".to_owned()),
        before: Some(was()),
        after: None,
        latest: Some(is()),
    };
    let answered = answer(&tool("page_diff", &[("id", "p")]), &found);
    assert_eq!(
        answered,
        wiki_diff("p", Some("T"), EPOCH, NEXT_DAY, Some(&was()), None, Some(&is()))
    );
    assert_eq!(value(&answered.unwrap())["added"][0], "b");
}

#[test]
fn a_tool_lists_the_events_of_the_route_the_other_way_round() {
    let later = Timestamp { local_nanos: 2 * DAY, offset_seconds: 0 };
    let event = |key: &str, occurred_at, ingested_at| TimelineRow {
        source_key: key.to_owned(),
        kind: None,
        title: key.to_owned(),
        url: String::new(),
        occurred_at,
        ingested_at,
        actor_slack_id: None,
        actor_name: None,
        directive_body: None,
        target_pages: None,
        directive_status: None,
        resulting_revision_ids: None,
    };
    let rows = || {
        vec![
            event("a", Some(later), None),
            event("b", None, Some(NEXT_DAY)),
            event("b", Some(EPOCH), Some(later)),
        ]
    };
    let found = Found::Events { start: EPOCH, end: NEXT_DAY, rows: Some(rows()) };
    let mut turned = value(&answer(&tool("event_timeline", &[]), &found).unwrap());
    let listed = value(&wiki_timeline(EPOCH, NEXT_DAY, Some(&rows())));
    assert_eq!(turned["events"][2]["source_key"], "a");
    assert_eq!(turned["events"][0]["occurred_at"], "1970-01-01T00:00:00Z");
    assert_eq!(turned["events"][1]["ingested_at"], "1970-01-02T00:00:00Z");
    assert_eq!(turned["events"][2]["occurred_at"], "1970-01-03T00:00:00Z");
    turned["events"].as_array_mut().unwrap().reverse();
    assert_eq!(turned, listed);
}

#[test]
fn the_other_tools_are_answered() {
    let graph = answer(&tool("wiki_graph", &[]), &Found::Pages { rows: Vec::new() }).unwrap();
    assert_eq!(graph, wiki_graph(&Vec::new()));
    let found = Found::Events { start: EPOCH, end: NEXT_DAY, rows: None };
    assert_eq!(
        answer(&tool("event_timeline", &[]), &found).unwrap(),
        event_timeline(EPOCH, NEXT_DAY, None)
    );
    let held = Credentials { github: false, linear: false, slack: false };
    let none = || Replies {
        merged_prs: Vec::new(),
        releases: Vec::new(),
        linear: None,
        slack: Vec::new(),
    };
    let found = Found::Live { start: EPOCH, end: None, held, replies: none() };
    assert_eq!(
        answer(&tool("list_slack_activity", &[]), &found).unwrap(),
        live_recent_activity(EPOCH, None, &vec!["slack".to_owned()], held, &none())
    );
}
