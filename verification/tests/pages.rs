use centaur_wiki::changes::{wiki_changes, PageChange, SourceRow};
use centaur_wiki::clock::{Timestamp, DAY};
use centaur_wiki::error::ApiError;
use centaur_wiki::json::Json;
use centaur_wiki::page::{
    strip_wiki_prefix, wiki_page, wiki_page_or_revisions, wiki_revisions, PageRequest, PageRow,
    RevisionRow,
};
use centaur_wiki::tally::tally;
use centaur_wiki::timeline::{
    event_timeline, excerpt, wiki_revisions_timeline, wiki_timeline, BucketRow, TimelineRow,
};
use serde_json::Value;

fn value(json: &Json) -> Value {
    match json {
        Json::Null => Value::Null,
        Json::Bool(b) => Value::Bool(*b),
        Json::Int(n) => Value::from(i64::try_from(*n).unwrap()),
        Json::Float(bits) => Value::from(f64::from_bits(*bits)),
        Json::Str(s) => Value::from(s.as_str()),
        Json::Array(items) => Value::Array(items.iter().map(value).collect()),
        Json::Object(fields) => {
            Value::Object(fields.iter().map(|(k, v)| (k.clone(), value(v))).collect())
        }
    }
}

fn parsed(text: &str) -> Value {
    serde_json::from_str(text).unwrap()
}

const EPOCH: Timestamp = Timestamp { local_nanos: 0, offset_seconds: 0 };
const NEXT_DAY: Timestamp = Timestamp { local_nanos: DAY, offset_seconds: 0 };

fn page() -> PageRow {
    let none = String::new;
    PageRow {
        document_id: "wiki:topic:a".to_owned(),
        source_type: "wiki_topic".to_owned(),
        title: "A".to_owned(),
        body: "text".to_owned(),
        url: "u".to_owned(),
        updated_at: Some(EPOCH),
        goal_kind: "ignored".to_owned(),
        glossary: none(),
        term: "ignored".to_owned(),
        definition: none(),
        person: "false".to_owned(),
        display_name: none(),
        github_login: none(),
        roles: none(),
        bio: none(),
        last_active: none(),
        active: none(),
    }
}

#[test]
fn page_types_lose_their_first_prefix() {
    assert_eq!(strip_wiki_prefix("wiki_topic"), "topic");
    assert_eq!(strip_wiki_prefix("my_wiki_wiki_"), "my_wiki_");
    assert_eq!(strip_wiki_prefix("topic"), "topic");
    assert_eq!(strip_wiki_prefix(""), "");
}

#[test]
fn a_page_is_shown_without_tags_that_it_lacks() {
    assert_eq!(
        value(&wiki_page(Some(&page())).unwrap()),
        parsed(
            r#"{"id": "wiki:topic:a", "title": "A", "type": "topic", "body": "text", "url": "u",
                "updated_at": "1970-01-01T00:00:00Z"}"#
        )
    );
}

#[test]
fn a_tagged_page_shows_its_tags() {
    let mut p = page();
    p.source_type = "wiki_goal".to_owned();
    p.glossary = "true".to_owned();
    p.person = "true".to_owned();
    p.github_login = "octo".to_owned();
    p.active = "true".to_owned();
    p.updated_at = None;
    assert_eq!(
        value(&wiki_page(Some(&p)).unwrap()),
        parsed(
            r#"{"id": "wiki:topic:a", "title": "A", "type": "goal", "body": "text", "url": "u",
                "updated_at": "", "goal_kind": "ignored",
                "glossary": true, "term": "ignored", "definition": "",
                "person": true, "display_name": "", "github_login": "octo", "roles": "",
                "bio": "", "last_active": "", "active": true}"#
        )
    );
}

#[test]
fn a_missing_page_is_not_found() {
    assert_eq!(wiki_page(None), Err(ApiError::NotFound("wiki page not found".to_owned())));
}

#[test]
fn paths_ask_for_pages_or_revisions() {
    assert_eq!(
        wiki_page_or_revisions("wiki:topic:a"),
        PageRequest::Page("wiki:topic:a".to_owned())
    );
    assert_eq!(
        wiki_page_or_revisions("a/b/revisions"),
        PageRequest::Revisions("a/b".to_owned())
    );
    assert_eq!(
        wiki_page_or_revisions("a/revisions/revisions"),
        PageRequest::Revisions("a/revisions".to_owned())
    );
    assert_eq!(wiki_page_or_revisions("revisions"), PageRequest::Page("revisions".to_owned()));
}

#[test]
fn revisions_are_listed() {
    let rows = vec![RevisionRow {
        revised_at: Some(EPOCH),
        content_hash: "h".to_owned(),
        len: 12,
    }];
    assert_eq!(
        value(&wiki_revisions("p", Some(&rows))),
        parsed(
            r#"{"id": "p", "revisions":
                [{"revised_at": "1970-01-01T00:00:00Z", "content_hash": "h", "length": 12}]}"#
        )
    );
    assert_eq!(value(&wiki_revisions("p", None)), parsed(r#"{"id": "p", "revisions": []}"#));
}

#[test]
fn texts_are_tallied() {
    let list = ["b", "a", "b", ""].map(str::to_owned).to_vec();
    assert_eq!(value(&tally(&list)), parsed(r#"{"": 1, "a": 1, "b": 2}"#));
    assert_eq!(value(&tally(&Vec::new())), parsed("{}"));
}

#[test]
fn changes_are_listed_and_counted() {
    let pages = vec![PageChange {
        document_id: "p".to_owned(),
        source_type: "wiki_entity".to_owned(),
        title: "P".to_owned(),
        url: "u".to_owned(),
        updated_at: Some(EPOCH),
    }];
    let sources = vec![
        SourceRow {
            source_key: "pr:o/r#1".to_owned(),
            ingested_at: Some(NEXT_DAY),
            occurred_at: Some(EPOCH),
        },
        SourceRow { source_key: "linear:X-1".to_owned(), ingested_at: None, occurred_at: None },
        SourceRow { source_key: "pr:o/r#2".to_owned(), ingested_at: None, occurred_at: None },
    ];
    let report = value(&wiki_changes(EPOCH, NEXT_DAY, &pages, Some(&sources)));
    assert_eq!(report["since"], "1970-01-01T00:00:00Z");
    assert_eq!(report["until"], "1970-01-02T00:00:00Z");
    assert_eq!(report["page_count"], 1);
    assert_eq!(report["source_count"], 3);
    assert_eq!(report["pages_by_type"], parsed(r#"{"entity": 1}"#));
    assert_eq!(report["sources_by_kind"], parsed(r#"{"pr": 2, "linear": 1}"#));
    assert_eq!(
        report["pages"],
        parsed(
            r#"[{"id": "p", "title": "P", "type": "entity", "url": "u",
                "updated_at": "1970-01-01T00:00:00Z"}]"#
        )
    );
    assert_eq!(
        report["sources"][0],
        parsed(
            r#"{"kind": "pr", "label": "o/r#1", "url": "https://github.com/o/r/pull/1",
                "ingested_at": "1970-01-02T00:00:00Z", "occurred_at": "1970-01-01T00:00:00Z"}"#
        )
    );
    let bare = value(&wiki_changes(EPOCH, NEXT_DAY, &Vec::new(), None));
    assert_eq!(bare["source_count"], 0);
    assert_eq!(bare["sources"], parsed("[]"));
    assert_eq!(bare["pages_by_type"], parsed("{}"));
}

fn event(key: &str) -> TimelineRow {
    TimelineRow {
        source_key: key.to_owned(),
        kind: None,
        ingested_at: Some(NEXT_DAY),
        occurred_at: None,
        title: String::new(),
        url: String::new(),
        actor_slack_id: None,
        actor_name: None,
        directive_body: None,
        target_pages: None,
        directive_status: None,
        resulting_revision_ids: None,
    }
}

#[test]
fn an_event_is_shown_by_its_key_where_nothing_is_stored() {
    let report = value(&wiki_timeline(EPOCH, NEXT_DAY, Some(&vec![event("pr:o/r#1")])));
    assert_eq!(
        report,
        parsed(
            r#"{"since": "1970-01-01T00:00:00Z", "until": "1970-01-02T00:00:00Z",
                "event_count": 1, "events_by_kind": {"pr": 1},
                "events": [{"source_key": "pr:o/r#1", "kind": "pr", "label": "o/r#1",
                    "url": "https://github.com/o/r/pull/1", "occurred_at": "",
                    "ingested_at": "1970-01-02T00:00:00Z", "event_time_estimated": true,
                    "actor_slack_id": null, "actor_name": null, "directive_body": null,
                    "directive_excerpt": null, "target_pages": null, "directive_status": null,
                    "resulting_revision_ids": null}]}"#
        )
    );
}

#[test]
fn stored_fields_of_an_event_take_precedence() {
    let mut e = event("tweet:1");
    e.kind = Some("news".to_owned());
    e.title = "Title".to_owned();
    e.url = "https://example.org".to_owned();
    e.occurred_at = Some(EPOCH);
    e.directive_body = Some("words".to_owned());
    let mut unnamed = event("tweet:2");
    unnamed.kind = Some(String::new());
    let report = value(&wiki_timeline(EPOCH, NEXT_DAY, Some(&vec![e, unnamed])));
    let shown = &report["events"][0];
    assert_eq!(shown["kind"], "news");
    assert_eq!(shown["label"], "Title");
    assert_eq!(shown["url"], "https://example.org");
    assert_eq!(shown["event_time_estimated"], false);
    assert_eq!(shown["directive_excerpt"], "words");
    assert_eq!(report["events"][1]["kind"], "tweet");
    assert_eq!(report["events_by_kind"], parsed(r#"{"news": 1, "tweet": 1}"#));
    assert_eq!(report["event_count"], 2);
}

#[test]
fn a_directive_is_labelled_by_its_words() {
    let mut e = event("directive:U1:17.5");
    e.title = "ignored".to_owned();
    e.actor_slack_id = Some("U1".to_owned());
    e.directive_body = Some("  Rename the page \n".to_owned());
    e.target_pages = Some(vec!["p".to_owned(), "q".to_owned()]);
    e.directive_status = Some("done".to_owned());
    e.resulting_revision_ids = Some(vec![3, -4]);
    let bare = event("directive:U2:1");
    let report = value(&wiki_timeline(EPOCH, NEXT_DAY, Some(&vec![e, bare])));
    let shown = &report["events"][0];
    assert_eq!(shown["label"], "Rename the page");
    assert_eq!(shown["directive_body"], "  Rename the page \n");
    assert_eq!(shown["target_pages"], parsed(r#"["p", "q"]"#));
    assert_eq!(shown["resulting_revision_ids"], parsed("[3, -4]"));
    assert_eq!(shown["actor_slack_id"], "U1");
    assert_eq!(report["events"][1]["label"], "directive from U2");
}

#[test]
fn excerpts_are_cut_at_two_hundred_characters() {
    assert_eq!(excerpt(&"é".repeat(200)), "é".repeat(200));
    assert_eq!(excerpt(&"é".repeat(201)), format!("{}…", "é".repeat(200)));
    assert_eq!(excerpt("  \n"), "");
}

#[test]
fn the_tool_lists_events_from_oldest_to_newest() {
    let rows = vec![event("doc:new"), event("doc:middle"), event("linear:old")];
    let report = value(&event_timeline(EPOCH, NEXT_DAY, Some(&rows)));
    let labels: Vec<&str> = (0..3).map(|i| report["events"][i]["label"].as_str().unwrap()).collect();
    assert_eq!(labels, ["old", "middle", "new"]);
    assert_eq!(report["event_count"], 3);
    assert_eq!(report["events_by_kind"], parsed(r#"{"doc": 2, "linear": 1}"#));
    let listed = value(&wiki_timeline(EPOCH, NEXT_DAY, Some(&rows)));
    assert_eq!(listed["events"][0]["label"], "new");
    assert_eq!(value(&event_timeline(EPOCH, NEXT_DAY, None))["events"], parsed("[]"));
}

#[test]
fn events_that_could_not_be_read_are_none() {
    let report = value(&wiki_timeline(EPOCH, NEXT_DAY, None));
    assert_eq!(report["event_count"], 0);
    assert_eq!(report["events"], parsed("[]"));
    assert_eq!(report["events_by_kind"], parsed("{}"));
}

#[test]
fn revisions_are_counted_over_time() {
    let rows = vec![
        BucketRow { bucket: Some(EPOCH), n: 3 },
        BucketRow { bucket: None, n: 4 },
    ];
    assert_eq!(
        value(&wiki_revisions_timeline(EPOCH, NEXT_DAY, 11, Some(&rows))),
        parsed(
            r#"{"since": "1970-01-01T00:00:00Z", "until": "1970-01-02T00:00:00Z",
                "unit": "hour", "baseline": 11, "total_in_window": 7,
                "buckets": [{"bucket": "1970-01-01T00:00:00Z", "count": 3},
                            {"bucket": "", "count": 4}]}"#
        )
    );
    let none = value(&wiki_revisions_timeline(EPOCH, NEXT_DAY, 0, None));
    assert_eq!(none["total_in_window"], 0);
    assert_eq!(none["buckets"], parsed("[]"));
}
