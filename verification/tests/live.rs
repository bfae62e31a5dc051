use centaur_wiki::activity::{
    cut_at_end, is_before, is_earlier, live_plan, live_recent_activity, sort_by_time, Credentials, Replies,
};
use centaur_wiki::clock::{stated_end, Timestamp, DAY};
use centaur_wiki::json::Json;
use centaur_wiki::live::{
    fetch_live_linear, fetch_live_merged_prs, fetch_live_releases, fetch_live_slack, is_since,
    linear_request, merged_prs_url, releases_url, slack_time, slack_url, Reply,
};
use centaur_wiki::query::qenc;
use serde_json::Value;

fn value(json: &Json) -> Value {
    match json {
        Json::Null => Value::Null,
        Json::Bool(b) => Value::Bool(*b),
        Json::Int(n) => Value::from(i64::try_from(*n).unwrap()),
        Json::Float(bits) => Value::from(f64::from_bits(*bits)),
        Json::Str(s) => Value::from(s.as_str()),
        Json::Array(items) => Value::Array(items.iter().map(value).collect()),
        Json::Object(fields) => {
            Value::Object(fields.iter().map(|(k, v)| (k.clone(), value(v))).collect())
        }
    }
}

fn parsed(text: &str) -> Value {
    serde_json::from_str(text).unwrap()
}

fn read(v: &Value) -> Json {
    match v {
        Value::Null => Json::Null,
        Value::Bool(b) => Json::Bool(*b),
        Value::Number(n) => match n.as_i64() {
            Some(n) => Json::Int(n as i128),
            None => Json::Float(n.as_f64().unwrap().to_bits()),
        },
        Value::String(s) => Json::Str(s.clone()),
        Value::Array(items) => Json::Array(items.iter().map(read).collect()),
        Value::Object(fields) => {
            Json::Object(fields.iter().map(|(k, v)| (k.clone(), read(v))).collect())
        }
    }
}

fn json(text: &str) -> Json {
    read(&parsed(text))
}

const EPOCH: Timestamp = Timestamp { local_nanos: 0, offset_seconds: 0 };
const NEXT_DAY: Timestamp = Timestamp { local_nanos: DAY, offset_seconds: 0 };

fn reply(name: &str, body: &str) -> Reply {
    Reply { name: name.to_owned(), body: Some(json(body)) }
}

fn silent(name: &str) -> Reply {
    Reply { name: name.to_owned(), body: None }
}

fn values(items: Vec<Json>) -> Value {
    value(&Json::Array(items))
}

fn list(names: &[&str]) -> Vec<String> {
    names.iter().map(|s| s.to_string()).collect()
}

#[test]
fn reserved_bytes_are_percent_encoded() {
    assert_eq!(qenc("AZaz09-_.~"), "AZaz09-_.~");
    assert_eq!(qenc("a b&c=d#e/f?%"), "a%20b%26c%3Dd%23e%2Ff%3F%25");
    assert_eq!(qenc("é\n"), "%C3%A9%0A");
    assert_eq!(qenc(""), "");
}

#[test]
fn every_byte_is_encoded_so_that_it_can_be_read_back() {
    for n in 0..=0x10FFFFu32 {
        if let Some(c) = char::from_u32(n) {
            if n > 0x800 && n % 257 != 0 {
                continue;
            }
            let s = c.to_string();
            let code = qenc(&s);
            let mut bytes = Vec::new();
            let mut rest = code.as_str();
            while let Some(first) = rest.chars().next() {
                if first == '%' {
                    assert_eq!(rest[1..3], rest[1..3].to_uppercase());
                    bytes.push(u8::from_str_radix(&rest[1..3], 16).unwrap());
                    rest = &rest[3..];
                } else {
                    bytes.push(first as u8);
                    rest = &rest[1..];
                }
            }
            assert_eq!(bytes, s.as_bytes());
        }
    }
}

#[test]
fn requests_are_addressed() {
    assert_eq!(
        merged_prs_url("o/r", EPOCH),
        "https://api.github.com/search/issues?q=repo%3Ao%2Fr%20is%3Apr%20is%3Amerged%20\
         merged%3A%3E%3D1970-01-01T00%3A00%3A00Z&per_page=50&sort=created&order=desc"
    );
    assert_eq!(releases_url("o/r"), "https://api.github.com/repos/o/r/releases?per_page=20");
    assert_eq!(
        slack_url("C 1", NEXT_DAY),
        "https://slack.com/api/conversations.history?channel=C%201&oldest=86400&limit=60"
    );
}

#[test]
fn issues_are_asked_for() {
    let request = value(&linear_request("team", EPOCH));
    assert_eq!(
        request["variables"],
        parsed(r#"{"teamId": "team", "since": "1970-01-01T00:00:00Z"}"#)
    );
    assert_eq!(
        request["query"],
        "query($teamId:String!,$since:DateTimeOrDuration!){ team(id:$teamId){ \
         issues(filter:{updatedAt:{gt:$since}}, first:50, orderBy:updatedAt){ nodes{ \
         identifier title url updatedAt state{name type} assignee{name} } } } }"
    );
}

#[test]
fn pull_requests_are_read() {
    let replies = vec![
        reply(
            "o/r",
            r#"{"items": [
                {"number": 7, "title": "T", "user": {"login": "me"}, "closed_at": "2026-01-02",
                 "updated_at": "x", "body": "B"},
                {"number": "8", "closed_at": null, "updated_at": "2026-01-03", "user": null},
                {"number": 9}
            ]}"#,
        ),
        silent("o/s"),
        reply("o/t", r#"{"items": "none"}"#),
        reply("o/u", r#"[]"#),
    ];
    assert_eq!(
        values(fetch_live_merged_prs(&replies, 2)),
        parsed(
            r#"[{"kind": "pr", "repo": "o/r", "id": "o/r#7", "title": "T", "author": "me",
                 "occurred_at": "2026-01-02", "url": "https://github.com/o/r/pull/7", "body": "B"},
                {"kind": "pr", "repo": "o/r", "id": "o/r#0", "title": "", "author": "",
                 "occurred_at": "2026-01-03", "url": "https://github.com/o/r/pull/0", "body": ""}]"#
        )
    );
}

#[test]
fn long_bodies_are_cut() {
    let body = "é".repeat(900);
    let text = format!(r#"{{"items": [{{"number": 1, "body": "{body}"}}]}}"#);
    let items = values(fetch_live_merged_prs(&vec![reply("r", &text)], 50));
    assert_eq!(items[0]["body"], "é".repeat(800));
}

#[test]
fn releases_are_read() {
    let replies = vec![
        silent("o/q"),
        reply(
            "o/r",
            r#"[{"draft": true, "published_at": "2026-01-01T00:00:00Z"},
                {"published_at": ""},
                {"published_at": null},
                {"published_at": "1969-12-31T23:59:59Z", "tag_name": "v0"},
                {"published_at": "1970-01-01T00:00:00Z", "tag_name": "v1", "html_url": "u"},
                {"published_at": "1971", "tag_name": "v2", "name": "Second", "draft": false,
                 "body": "notes"}]"#,
        ),
        reply("o/s", r#"{"message": "none"}"#),
    ];
    assert_eq!(
        values(fetch_live_releases(&replies, EPOCH)),
        parsed(
            r#"[{"kind": "release", "repo": "o/r", "id": "o/r@v1", "title": "v1",
                 "occurred_at": "1970-01-01T00:00:00Z", "url": "u", "body": ""},
                {"kind": "release", "repo": "o/r", "id": "o/r@v2", "title": "Second",
                 "occurred_at": "1971", "url": "", "body": "notes"}]"#
        )
    );
}

#[test]
fn releases_are_held_against_the_start_as_points_in_time() {
    // Ten o'clock at an offset of two hours is eight o'clock in universal time.
    let start = Timestamp { local_nanos: 1_704_103_200 * 1_000_000_000, offset_seconds: 7200 };
    let replies = vec![reply(
        "o/r",
        r#"[{"published_at": "2024-01-01T09:00:00Z", "tag_name": "later"},
            {"published_at": "2024-01-01T08:00:00Z", "tag_name": "then"},
            {"published_at": "2024-01-01T07:59:59Z", "tag_name": "before"},
            {"published_at": "2024-01-01T09:30:00+02:00", "tag_name": "before too"},
            {"published_at": "2024-01-01T08:00:00.5Z", "tag_name": "just after"},
            {"published_at": "2024", "tag_name": "unclear and small"},
            {"published_at": "unclear", "tag_name": "unclear and large"}]"#,
    )];
    let kept = values(fetch_live_releases(&replies, start));
    let ids: Vec<&str> =
        kept.as_array().unwrap().iter().map(|v| v["title"].as_str().unwrap()).collect();
    assert_eq!(ids, ["later", "then", "just after", "unclear and large"]);
    assert!(is_since(Some(NEXT_DAY), "0", NEXT_DAY, "1"));
    assert!(!is_since(Some(EPOCH), "1", NEXT_DAY, "0"));
    assert!(is_since(None, "1", NEXT_DAY, "1"));
    assert!(!is_since(None, "0", NEXT_DAY, "1"));
}

#[test]
fn issues_are_read() {
    let body = json(
        r#"{"data": {"team": {"issues": {"nodes": [
            {"identifier": "D-1", "title": "T", "url": "u", "updatedAt": "w",
             "state": {"name": "Done", "type": "completed"}, "assignee": null},
            {}
        ]}}}}"#,
    );
    assert_eq!(
        values(fetch_live_linear(Some(&body))),
        parsed(
            r#"[{"kind": "linear", "id": "D-1", "title": "T", "state": "Done", "assignee": "",
                 "occurred_at": "w", "url": "u"},
                {"kind": "linear", "id": "", "title": "", "state": "", "assignee": "",
                 "occurred_at": "", "url": ""}]"#
        )
    );
    assert!(fetch_live_linear(None).is_empty());
    assert!(fetch_live_linear(Some(&json(r#"{"data": {"team": null}}"#))).is_empty());
    assert!(fetch_live_linear(Some(&json(r#"{"errors": []}"#))).is_empty());
}

#[test]
fn messages_are_read() {
    let replies = vec![
        reply(
            "C1",
            r#"{"ok": true, "messages": [
                {"text": "joined", "subtype": "channel_join", "ts": "1.1"},
                {"text": " \n", "ts": "2.1"},
                {"text": "hello", "ts": "86400.000100"},
                {"text": "too late", "ts": "5.0"}
            ]}"#,
        ),
        reply("C2", r#"{"ok": false, "messages": [{"text": "hidden"}]}"#),
        silent("C3"),
        reply("C4", r#"{"ok": true}"#),
        reply("C5", r#"{"ok": true, "messages": [{"text": "x", "subtype": 1}]}"#),
    ];
    assert_eq!(
        values(fetch_live_slack(&replies, 3)),
        parsed(
            r#"[{"kind": "slack", "channel_id": "C1", "id": "slack:C1:86400.000100",
                 "title": "hello", "occurred_at": "1970-01-02T00:00:00Z", "url": "",
                 "body": "hello"},
                {"kind": "slack", "channel_id": "C5", "id": "slack:C5:", "title": "x",
                 "occurred_at": "", "url": "", "body": "x"}]"#
        )
    );
}

#[test]
fn long_messages_are_cut() {
    let text = "é".repeat(900);
    let body = format!(r#"{{"ok": true, "messages": [{{"text": "{text}", "ts": "0"}}]}}"#);
    let items = values(fetch_live_slack(&vec![reply("C", &body)], 60));
    assert_eq!(items[0]["title"], "é".repeat(160));
    assert_eq!(items[0]["body"], "é".repeat(800));
}

#[test]
fn stamps_are_times() {
    assert_eq!(slack_time("1767225600.123"), "2026-01-01T00:00:00Z");
    assert_eq!(slack_time("-1"), "1969-12-31T23:59:59Z");
    for stamp in ["", ".5", "x.1", "99999999999999999999", "253402300800", "-377705116801"] {
        assert_eq!(slack_time(stamp), "", "{stamp}");
    }
}

const ALL: Credentials = Credentials { github: true, linear: true, slack: true };
const NONE: Credentials = Credentials { github: false, linear: false, slack: false };

#[test]
fn an_empty_list_of_sources_stands_for_all() {
    let plan = live_plan(&Vec::new(), ALL);
    assert!(plan.merged_prs && plan.releases && plan.linear && plan.slack);
    assert!(plan.errors.is_empty());
    let plan = live_plan(&Vec::new(), NONE);
    assert!(!plan.merged_prs && !plan.releases && !plan.linear && !plan.slack);
    assert_eq!(
        plan.errors,
        [
            "github: no CODE_REVIEW_GITHUB_TOKEN/GITHUB_GATEWAY_TOKEN",
            "linear: no LINEAR_API_KEY",
            "slack: no SLACK_BOT_TOKEN"
        ]
    );
}

#[test]
fn only_named_sources_are_planned() {
    let plan = live_plan(&list(&["pr"]), ALL);
    assert!(plan.merged_prs && !plan.releases && !plan.linear && !plan.slack);
    let plan = live_plan(&list(&["release", "slack"]), ALL);
    assert!(!plan.merged_prs && plan.releases && !plan.linear && plan.slack);
    let plan = live_plan(&list(&["github"]), ALL);
    assert!(plan.merged_prs && plan.releases);
    let plan = live_plan(&list(&["other"]), NONE);
    assert!(plan.errors.is_empty());
    let plan = live_plan(&list(&["linear"]), NONE);
    assert_eq!(plan.errors, ["linear: no LINEAR_API_KEY"]);
}

fn at(id: &str, time: &str) -> Json {
    json(&format!(r#"{{"id": "{id}", "occurred_at": "{time}"}}"#))
}

#[test]
fn items_are_sorted_by_time_and_keep_their_order() {
    let items = vec![at("a", "3"), at("b", "1"), at("c", "3"), json("{}"), at("d", "1"), at("e", "2")];
    let sorted = values(sort_by_time(&items));
    let ids: Vec<&str> =
        sorted.as_array().unwrap().iter().map(|v| v["id"].as_str().unwrap_or("")).collect();
    assert_eq!(ids, ["", "b", "d", "e", "a", "c"]);
    assert!(sort_by_time(&Vec::new()).is_empty());
}

#[test]
fn items_are_sorted_by_point_in_time() {
    let items = vec![
        at("half", "2024-01-01T00:00:00.500Z"),
        at("whole", "2024-01-01T00:00:00Z"),
        at("east", "2024-01-01T01:00:00+02:00"),
        at("unclear", "zzz"),
        at("same", "2024-01-01T02:00:00+02:00"),
        at("none", ""),
    ];
    let sorted = values(sort_by_time(&items));
    let ids: Vec<&str> =
        sorted.as_array().unwrap().iter().map(|v| v["id"].as_str().unwrap()).collect();
    assert_eq!(ids, ["none", "east", "whole", "same", "half", "unclear"]);
    assert!(is_earlier(Some(EPOCH), "b", Some(NEXT_DAY), "a"));
    assert!(!is_earlier(Some(NEXT_DAY), "a", Some(EPOCH), "b"));
    assert!(is_earlier(Some(EPOCH), "a", Some(EPOCH), "b"));
    assert!(!is_earlier(Some(EPOCH), "a", Some(EPOCH), "a"));
    assert!(!is_earlier(None, "b", Some(EPOCH), "a"));
    assert!(is_earlier(Some(EPOCH), "a", None, "b"));
    assert!(is_earlier(None, "a", None, "b"));
}

#[test]
fn a_time_that_states_no_point_stands_by_its_text() {
    let items = vec![
        at("day", "2024-01-02"),
        at("first", "2024-01-01T00:00:00Z"),
        at("last", "2024-01-02T00:00:00Z"),
        at("year", "2024"),
        at("again", "2024-01-02"),
        at("later", "2024-01-03"),
    ];
    let sorted = values(sort_by_time(&items));
    let ids: Vec<&str> =
        sorted.as_array().unwrap().iter().map(|v| v["id"].as_str().unwrap()).collect();
    assert_eq!(ids, ["year", "first", "day", "again", "last", "later"]);
}

#[test]
fn a_feed_with_a_day_alone_goes_from_oldest_to_newest() {
    let replies = Replies {
        merged_prs: vec![reply(
            "o/r",
            r#"{"items": [{"number": 1, "closed_at": "2024-01-02"},
                          {"number": 2, "closed_at": "2024-01-01T00:00:00Z"}]}"#,
        )],
        releases: Vec::new(),
        linear: None,
        slack: Vec::new(),
    };
    let feed = value(&live_recent_activity(EPOCH, None, &list(&["pr"]), ALL, &replies));
    assert_eq!(feed["items"][0]["id"], "o/r#2");
    assert_eq!(feed["items"][1]["id"], "o/r#1");
}

#[test]
fn feeds_keep_their_items_and_their_order() {
    // Texts in their order. Each that states a point in time is beside it, in seconds.
    let texts: [(&str, Option<i64>); 10] = [
        ("", None),
        ("2024", None),
        ("2024-01-01", None),
        ("2024-01-01T00:00:00.500Z", Some(1)),
        ("2024-01-01T00:00:00Z", Some(0)),
        ("2024-01-01T01:00:00+01:00", Some(0)),
        ("2024-01-01T02", None),
        ("2024-01-01T02:00:00+03:00", Some(-3600)),
        ("2024-01-02", None),
        ("2024-01-02T00:00:00Z", Some(86400)),
    ];
    let mut seed: u64 = 7;
    for _ in 0..2000 {
        let mut picked: Vec<usize> = Vec::new();
        let mut items = Vec::new();
        for n in 0..6 {
            seed = seed.wrapping_mul(6364136223846793005).wrapping_add(1442695040888963407);
            picked.push(((seed >> 33) % 10) as usize);
            items.push(at(&n.to_string(), texts[picked[n]].0));
        }
        let sorted = values(sort_by_time(&items));
        let order: Vec<usize> = sorted
            .as_array()
            .unwrap()
            .iter()
            .map(|v| v["id"].as_str().unwrap().parse().unwrap())
            .collect();
        let mut all = order.clone();
        all.sort();
        assert_eq!(all, [0, 1, 2, 3, 4, 5]);
        for (i, a) in order.iter().enumerate() {
            for (j, b) in order.iter().enumerate().skip(i + 1) {
                let (x, y) = (picked[*a], picked[*b]);
                match (texts[x].1, texts[y].1) {
                    (Some(p), Some(q)) => assert!(p < q || (p == q && x <= y)),
                    (_, None) => assert!(x <= y),
                    (None, Some(_)) => {
                        let next = order[i..=j].iter().find(|k| texts[picked[**k]].1.is_some());
                        assert!(x < picked[*next.unwrap()]);
                    }
                }
                assert!(x != y || a < b);
            }
        }
    }
}

#[test]
fn a_stated_end_cuts_the_feed() {
    let items = vec![
        at("a", "1970-01-01T23:59:59Z"),
        at("b", "1970-01-02T00:00:00Z"),
        at("c", "1970-01-02T01:00:00+02:00"),
        at("d", ""),
        at("e", "soon"),
    ];
    let kept = values(cut_at_end(items, Some(NEXT_DAY)));
    let ids: Vec<&str> =
        kept.as_array().unwrap().iter().map(|v| v["id"].as_str().unwrap()).collect();
    assert_eq!(ids, ["a", "c", "d", "e"]);
    assert_eq!(cut_at_end(vec![at("z", "9999-01-01T00:00:00Z")], None).len(), 1);
    assert!(is_before(Some(EPOCH), Some(NEXT_DAY)));
    assert!(!is_before(Some(NEXT_DAY), Some(NEXT_DAY)));
    assert!(is_before(None, Some(EPOCH)));
    assert!(is_before(Some(NEXT_DAY), None));
}

#[test]
fn an_end_is_stated_only_without_a_span() {
    assert_eq!(stated_end(None, Some("1970-01-02T00:00:00Z")), Some(NEXT_DAY));
    assert_eq!(stated_end(Some(DAY), Some("1970-01-02T00:00:00Z")), None);
    assert_eq!(stated_end(None, Some("later")), None);
    assert_eq!(stated_end(None, None), None);
}

fn replies() -> Replies {
    Replies {
        merged_prs: vec![reply("o/r", r#"{"items": [{"number": 1, "closed_at": "1970-01-03T00:00:00Z"}]}"#)],
        releases: vec![reply("o/r", r#"[{"tag_name": "v1", "published_at": "1970-01-01T05:00:00Z"}]"#)],
        linear: Some(json(
            r#"{"data": {"team": {"issues": {"nodes": [{"identifier": "D-1",
                "updatedAt": "1970-01-01T04:00:00Z"}]}}}}"#,
        )),
        slack: vec![reply("C", r#"{"ok": true, "messages": [{"text": "hi", "ts": "0.1"}]}"#)],
    }
}

fn ids(report: &Value) -> Vec<String> {
    let items = report["items"].as_array().unwrap();
    items.iter().map(|v| v["id"].as_str().unwrap().to_owned()).collect()
}

#[test]
fn the_feed_is_reported() {
    let report = value(&live_recent_activity(EPOCH, None, &Vec::new(), ALL, &replies()));
    assert_eq!(ids(&report), ["slack:C:0.1", "D-1", "o/r@v1", "o/r#1"]);
    assert_eq!(report["since"], "1970-01-01T00:00:00Z");
    assert_eq!(report["live"], true);
    assert_eq!(report["count"], 4);
    assert_eq!(report["by_kind"], parsed(r#"{"linear": 1, "pr": 1, "release": 1, "slack": 1}"#));
    assert_eq!(report["errors"], parsed("[]"));
    assert_eq!(
        report["note"],
        "Live read from GitHub/Linear/Slack APIs (not the wiki's synthesized state) — same \
         sources the Centaur agent reads."
    );
}

#[test]
fn the_feed_holds_what_was_asked_for() {
    let report = value(&live_recent_activity(EPOCH, None, &list(&["pr", "linear"]), ALL, &replies()));
    assert_eq!(ids(&report), ["D-1", "o/r#1"]);
    let held = Credentials { github: false, linear: true, slack: true };
    let report = value(&live_recent_activity(EPOCH, None, &list(&["pr", "linear"]), held, &replies()));
    assert_eq!(ids(&report), ["D-1"]);
    assert_eq!(
        report["errors"],
        parsed(r#"["github: no CODE_REVIEW_GITHUB_TOKEN/GITHUB_GATEWAY_TOKEN"]"#)
    );
    let report = value(&live_recent_activity(EPOCH, Some(NEXT_DAY), &Vec::new(), ALL, &replies()));
    assert_eq!(ids(&report), ["slack:C:0.1", "D-1", "o/r@v1"]);
    assert_eq!(report["count"], 3);
}
