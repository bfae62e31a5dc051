use centaur_wiki::clock::Timestamp;
use centaur_wiki::json::Json;
use centaur_wiki::search::{
    find_any, search_plan, snippet, truncate_body, wiki_search, SearchRow,
};
use serde_json::Value;

fn value(json: &Json) -> Value {
    match json {
        Json::Null => Value::Null,
        Json::Bool(b) => Value::Bool(*b),
        Json::Int(n) => Value::from(i64::try_from(*n).unwrap()),
        Json::Float(bits) => Value::from(f64::from_bits(*bits)),
        Json::Str(s) => Value::from(s.as_str()),
        Json::Array(items) => Value::Array(items.iter().map(value).collect()),
        Json::Object(fields) => {
            Value::Object(fields.iter().map(|(k, v)| (k.clone(), value(v))).collect())
        }
    }
}

fn parsed(text: &str) -> Value {
    serde_json::from_str(text).unwrap()
}

#[test]
fn a_short_body_is_shown_whole() {
    assert_eq!(truncate_body("Hello world", "world"), "Hello world");
    assert_eq!(truncate_body("Hello world", "absent"), "Hello world");
    assert_eq!(truncate_body("", "x"), "");
    assert_eq!(truncate_body("abc", ""), "abc");
}

#[test]
fn a_snippet_stands_around_the_first_hit() {
    let body = format!("{}needle{}", "a".repeat(100), "b".repeat(300));
    let expected = format!("…{}needle{}…", "a".repeat(60), "b".repeat(154));
    assert_eq!(truncate_body(&body, "needle"), expected);
    assert_eq!(truncate_body(&body, "zzz needle"), expected);
}

#[test]
fn the_earliest_of_the_terms_counts() {
    let body = format!("{}one{}two{}", "x".repeat(80), "y".repeat(200), "z".repeat(50));
    let expected = format!("…{}one{}…", "x".repeat(60), "y".repeat(157));
    assert_eq!(truncate_body(&body, "two one"), expected);
}

#[test]
fn terms_are_found_whatever_their_case() {
    let body = format!("{}NeeDle{}", "a".repeat(100), "b".repeat(10));
    let expected = format!("…{}NeeDle{}", "a".repeat(60), "b".repeat(10));
    assert_eq!(truncate_body(&body, "nEEdle"), expected);
    let body = format!("{}ÉCOLE", "a".repeat(100));
    assert_eq!(truncate_body(&body, "école"), format!("…{}ÉCOLE", "a".repeat(60)));
}

#[test]
fn without_a_hit_the_start_is_shown() {
    let body = "c".repeat(500);
    assert_eq!(truncate_body(&body, "needle"), format!("{}…", "c".repeat(200)));
    assert_eq!(truncate_body(&"c".repeat(200), "needle"), "c".repeat(200));
}

#[test]
fn characters_are_never_cut() {
    let body = format!("{}needle{}", "é".repeat(100), "漢".repeat(300));
    let expected = format!("…{}needle{}…", "é".repeat(60), "漢".repeat(154));
    assert_eq!(truncate_body(&body, "needle"), expected);
}

#[test]
fn letters_that_grow_in_lower_case_do_not_move_the_hit() {
    let body = format!("{}needle{}", "İ".repeat(100), "x".repeat(300));
    let expected = format!("…{}needle{}…", "İ".repeat(60), "x".repeat(154));
    assert_eq!(truncate_body(&body, "needle"), expected);
    assert_eq!(truncate_body(&body, "NEEDLE"), expected);
    let body = format!("{}İSTANBUL", "a".repeat(100));
    assert_eq!(truncate_body(&body, "i̇stanbul"), format!("…{}İSTANBUL", "a".repeat(60)));
}

#[test]
fn a_term_is_found_within_a_letter_that_grew() {
    let body = format!("{}İ{}", "a".repeat(100), "b".repeat(10));
    let expected = format!("…{}İ{}", "a".repeat(60), "b".repeat(10));
    assert_eq!(truncate_body(&body, "\u{307}b"), expected);
    assert_eq!(truncate_body(&body, "i"), expected);
}

#[test]
fn a_letter_may_depend_on_those_before_it() {
    let body = format!("{}ΟΔΟΣ", "a".repeat(300));
    assert_eq!(truncate_body(&body, "ς"), format!("…{}ΟΔΟΣ", "a".repeat(57)));
    let body = format!("İ{}ΟΔΟΣ", "a".repeat(300));
    assert_eq!(truncate_body(&body, "ς"), format!("…{}ΟΔΟΣ", "a".repeat(57)));
    assert_eq!(truncate_body(&body, "σ"), format!("İ{}…", "a".repeat(199)));
}

#[test]
fn a_letter_may_depend_on_the_next_one() {
    let body = format!("{}ΟΔΟΣ ΟΔΟΣΑ", "a".repeat(100));
    assert_eq!(truncate_body(&body, "οδος"), format!("…{}ΟΔΟΣ ΟΔΟΣΑ", "a".repeat(60)));
    assert_eq!(truncate_body(&body, "οδοσ"), format!("…{}ΟΔΟΣ ΟΔΟΣΑ", "a".repeat(55)));
}

#[test]
fn a_snippet_is_cut_around_a_position() {
    let body = "b".repeat(400);
    assert_eq!(snippet("ab", Some(1)), "ab");
    assert_eq!(snippet(&body, Some(100)), format!("…{}…", "b".repeat(220)));
    assert_eq!(snippet(&body, Some(399)), format!("…{}", "b".repeat(61)));
    assert_eq!(snippet(&body, None), format!("{}…", "b".repeat(200)));
}

#[test]
fn the_first_of_all_terms_is_found() {
    let terms = ["one", "two"].map(str::to_owned).to_vec();
    assert_eq!(find_any("two more, one more", &terms), Some(0));
    assert_eq!(find_any("é more two", &terms), Some(7));
    assert_eq!(find_any("tw on", &terms), None);
    assert_eq!(find_any("", &terms), None);
    assert_eq!(find_any("x", &Vec::new()), None);
}

#[test]
fn a_snippet_is_short() {
    let body = "word ".repeat(1000);
    for query in ["word", "d w", "nothing", "ord w"] {
        assert!(truncate_body(&body, query).chars().count() <= 222);
    }
}

#[test]
fn queries_are_trimmed_and_limited() {
    assert_eq!(search_plan(" a b ", None), Some(("a b".to_owned(), 20)));
    assert_eq!(search_plan("a", Some(7)), Some(("a".to_owned(), 7)));
    assert_eq!(search_plan("a", Some(51)), Some(("a".to_owned(), 50)));
    assert_eq!(search_plan("a", Some(-3)), Some(("a".to_owned(), -3)));
    assert_eq!(search_plan(" \t", Some(5)), None);
    assert_eq!(search_plan("", None), None);
}

#[test]
fn hits_are_reported() {
    let row = SearchRow {
        document_id: "wiki:topic:x".to_owned(),
        source_type: "wiki_topic".to_owned(),
        title: "X".to_owned(),
        body: "the body".to_owned(),
        url: "u".to_owned(),
        updated_at: Some(Timestamp { local_nanos: 0, offset_seconds: 0 }),
    };
    assert_eq!(
        value(&wiki_search(&vec![row], "body")),
        parsed(
            r#"{"results": [{"id": "wiki:topic:x", "title": "X", "type": "topic",
                "snippet": "the body", "url": "u", "updated_at": "1970-01-01T00:00:00Z"}]}"#
        )
    );
    assert_eq!(value(&wiki_search(&Vec::new(), "x")), parsed(r#"{"results": []}"#));
}
