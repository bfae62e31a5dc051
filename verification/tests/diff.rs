use centaur_wiki::clock::{Timestamp, DAY};
use centaur_wiki::diff::{
    can_compare, diff_report, lines_marked, render, unified_diff, wiki_diff, Change, Hunk, Revision,
    Tag,
};
use centaur_wiki::error::ApiError;
use centaur_wiki::json::Json;
use serde_json::Value;

fn value(json: &Json) -> Value {
    match json {
        Json::Null => Value::Null,
        Json::Bool(b) => Value::Bool(*b),
        Json::Int(n) => Value::from(i64::try_from(*n).unwrap()),
        Json::Float(bits) => Value::from(f64::from_bits(*bits)),
        Json::Str(s) => Value::from(s.as_str()),
        Json::Array(items) => Value::Array(items.iter().map(value).collect()),
        Json::Object(fields) => {
            Value::Object(fields.iter().map(|(k, v)| (k.clone(), value(v))).collect())
        }
    }
}

fn parsed(text: &str) -> Value {
    serde_json::from_str(text).unwrap()
}

const EPOCH: Timestamp = Timestamp { local_nanos: 0, offset_seconds: 0 };
const NEXT_DAY: Timestamp = Timestamp { local_nanos: DAY, offset_seconds: 0 };

#[test]
fn a_diff_shows_changes_with_context() {
    let before = "a\nb\nc\nd\ne\nf\n";
    let after = "a\nb\nc\nX\ne\nf\n";
    assert_eq!(
        unified_diff(before, after, "from", "to", 2),
        ["--- from", "+++ to", "@@ -2,5 +2,5 @@", " b", " c", "-d", "+X", " e", " f"]
    );
    assert_eq!(
        unified_diff(before, after, "from", "to", 0),
        ["--- from", "+++ to", "@@ -4 +4 @@", "-d", "+X"]
    );
}

#[test]
fn far_changes_stand_in_hunks_of_their_own() {
    let before: String = (0..20).map(|n| format!("{n}\n")).collect();
    let after = before.replace("2\n", "two\n").replace("17\n", "seventeen\n");
    let lines = unified_diff(&before, &after, "a", "b", 1);
    assert_eq!(lines.iter().filter(|l| l.starts_with("@@")).count(), 3);
    assert_eq!(lines.iter().filter(|l| l.starts_with("---")).count(), 1);
}

#[test]
fn a_new_text_is_all_added() {
    assert_eq!(
        unified_diff("", "x\ny", "f", "t", 2),
        ["--- f", "+++ t", "@@ -0,0 +1,2 @@", "+x", "+y"]
    );
    assert_eq!(unified_diff("x", "", "f", "t", 2), ["--- f", "+++ t", "@@ -1 +0,0 @@", "-x"]);
}

#[test]
fn there_are_lines_exactly_where_the_texts_differ() {
    let texts = ["", "\n", "a", "a\n", "a\r\n", "a\nb", "b\na", "\r", "é\n", "a\n\n"];
    for a in texts {
        for b in texts {
            for context in [0, 1, 2, 100] {
                let lines = unified_diff(a, b, "f", "t", context);
                assert_eq!(lines.is_empty(), a == b, "{a:?} {b:?} {context}");
                for line in lines.iter().filter(|l| !l.starts_with("---") && l.starts_with('-')) {
                    assert!(a.contains(&line[1..]));
                }
                for line in lines.iter().filter(|l| !l.starts_with("+++") && l.starts_with('+')) {
                    assert!(b.contains(&line[1..]));
                }
            }
        }
    }
}

fn hunks_of(lines: &[String]) -> Vec<(Vec<String>, Vec<String>)> {
    let mut hunks: Vec<(Vec<String>, Vec<String>)> = Vec::new();
    for line in lines.iter().skip(2) {
        if line.starts_with("@@") {
            hunks.push((Vec::new(), Vec::new()));
            continue;
        }
        let hunk = hunks.last_mut().unwrap();
        let text = line[1..].to_owned();
        if !line.starts_with('+') {
            hunk.0.push(text.clone());
        }
        if !line.starts_with('-') {
            hunk.1.push(text);
        }
    }
    hunks
}

fn turns(hunks: &[(Vec<String>, Vec<String>)], a: &[String], b: &[String]) -> bool {
    let Some(((was, is), rest)) = hunks.split_first() else {
        return a == b;
    };
    (0..=a.len().min(b.len())).any(|gap| {
        a[..gap] == b[..gap]
            && a[gap..].starts_with(was)
            && b[gap..].starts_with(is)
            && turns(rest, &a[gap + was.len()..], &b[gap + is.len()..])
    })
}

fn is_header(line: &str) -> bool {
    let Some(ranges) = line.strip_prefix("@@ -").and_then(|l| l.strip_suffix(" @@")) else {
        return false;
    };
    let number = |s: &str| !s.is_empty() && s.bytes().all(|b| b.is_ascii_digit());
    ranges.split(" +").count() == 2
        && ranges.split(" +").all(|range| match range.split_once(',') {
            Some((start, len)) => number(start) && number(len) && len != "1",
            None => number(range),
        })
}

#[test]
fn hunks_turn_one_text_into_the_other() {
    let mut seed: u64 = 1;
    let mut next = |n: u64| {
        seed = seed.wrapping_mul(6364136223846793005).wrapping_add(1442695040888963407);
        (seed >> 33) % n
    };
    for round in 0..3000 {
        let size = if round % 100 == 0 { 130 } else { 9 };
        let a: Vec<String> = (0..next(size)).map(|_| format!("l{}", next(3))).collect();
        let b: Vec<String> = (0..next(size)).map(|_| format!("l{}", next(3))).collect();
        let before: String = a.iter().map(|l| format!("{l}\n")).collect();
        let after: String = b.iter().map(|l| format!("{l}\n")).collect();
        for context in [0, 1, 2, 3, a.len()] {
            let lines = unified_diff(&before, &after, "f", "t", context);
            let hunks = hunks_of(&lines);
            assert!(turns(&hunks, &a, &b), "{a:?} {b:?} {context}");
            for line in lines.iter().skip(2) {
                assert!(!line.contains('\n') && !line.contains('\r'));
                assert!(!line.starts_with('@') || is_header(line), "{line}");
            }
            for hunk in &hunks {
                assert_ne!(hunk.0, hunk.1);
            }
            if context == a.len() && a != b {
                assert_eq!(hunks, [(a.clone(), b.clone())]);
            }
        }
    }
}

#[test]
fn each_line_ending_ends_a_line() {
    let before = "a\r\nb\rc\n\rd";
    let after = "a\nb\rc\n\re";
    let lines = unified_diff(before, after, "f", "t", 0);
    assert_eq!(lines_marked(&lines, '-'), ["a", "d"]);
    assert_eq!(lines_marked(&lines, '+'), ["a", "e"]);
}

#[test]
fn long_texts_are_compared_too() {
    let before: String = (0..400).map(|n| format!("line {}\n", n % 37)).collect();
    let after = before.replacen("line 5\n", "", 1);
    let lines = unified_diff(&before, &after, "f", "t", 2);
    assert_eq!(lines_marked(&lines, '-'), ["line 5"]);
    assert_eq!(lines_marked(&lines, '+'), Vec::<String>::new());
}

fn change(tag: Tag, value: &str) -> Change {
    Change { tag, value: value.to_owned() }
}

#[test]
fn lines_are_rendered_without_their_endings() {
    let hunk = Hunk {
        header: "@@ -1,3 +1,3 @@".to_owned(),
        changes: vec![
            change(Tag::Equal, "same\r\n"),
            change(Tag::Delete, "old\n"),
            change(Tag::Insert, "new\r"),
            change(Tag::Insert, "two\n\n"),
            change(Tag::Delete, ""),
        ],
    };
    assert_eq!(
        render(&vec![hunk], "f", "t"),
        ["--- f", "+++ t", "@@ -1,3 +1,3 @@", " same", "-old", "+new", "+two\n", "-"]
    );
    assert_eq!(render(&Vec::new(), "f", "t"), Vec::<String>::new());
}

#[test]
fn names_and_headers_are_no_changes() {
    let lines: Vec<String> =
        ["--- f", "+++ t", "@@ -1 +1 @@", "-old", "+new", "+++plus", "---minus", "+", " +x", ""]
            .map(str::to_owned)
            .to_vec();
    assert_eq!(lines_marked(&lines, '+'), ["new", ""]);
    assert_eq!(lines_marked(&lines, '-'), ["old"]);
}

#[test]
fn texts_of_ordinary_size_can_be_compared() {
    assert!(can_compare("a\nb", "", 2));
    assert!(can_compare("", "", usize::MAX / 2));
    assert!(!can_compare("", "", usize::MAX / 2 + 1));
}

fn revision(body: &str, at: Option<Timestamp>) -> Revision {
    Revision { body: body.to_owned(), revised_at: at }
}

#[test]
fn a_page_that_changed_is_reported() {
    let before = revision("one\ntwo\n", Some(EPOCH));
    let after = revision("one\n2\n", Some(NEXT_DAY));
    let report =
        wiki_diff("p", Some("Page"), EPOCH, NEXT_DAY, Some(&before), Some(&after), None).unwrap();
    assert_eq!(
        value(&report),
        parsed(
            r#"{"id": "p", "title": "Page",
                "since": "1970-01-01T00:00:00Z", "until": "1970-01-02T00:00:00Z",
                "before_at": "1970-01-01T00:00:00Z", "after_at": "1970-01-02T00:00:00Z",
                "had_prior": true, "changed": true,
                "diff": ["--- Page @ 1970-01-01T00:00:00Z", "+++ Page @ 1970-01-02T00:00:00Z",
                         "@@ -1,2 +1,2 @@", " one", "-two", "+2"],
                "added": ["2"], "removed": ["two"], "added_count": 1, "removed_count": 1}"#
        )
    );
}

#[test]
fn a_page_without_an_early_revision_starts_empty() {
    let latest = revision("x", None);
    let report =
        value(&wiki_diff("p", Some("P"), EPOCH, NEXT_DAY, None, None, Some(&latest)).unwrap());
    assert_eq!(report["had_prior"], false);
    assert_eq!(report["before_at"], "");
    assert_eq!(report["after_at"], "");
    assert_eq!(report["diff"], parsed(r#"["--- P @ start", "+++ P @ now", "@@ -0,0 +1 @@", "+x"]"#));
    let none = value(&wiki_diff("p", Some("P"), EPOCH, NEXT_DAY, None, None, None).unwrap());
    assert_eq!(none["changed"], false);
    assert_eq!(none["diff"], parsed("[]"));
}

#[test]
fn the_latest_revision_counts_only_where_there_is_no_other() {
    let a = revision("a", Some(EPOCH));
    let b = revision("b", Some(NEXT_DAY));
    let report =
        value(&wiki_diff("p", Some("P"), EPOCH, NEXT_DAY, Some(&a), Some(&a), Some(&b)).unwrap());
    assert_eq!(report["changed"], false);
    assert_eq!(report["diff"], parsed("[]"));
    assert_eq!(report["added_count"], 0);
    assert_eq!(report["after_at"], "1970-01-01T00:00:00Z");
}

#[test]
fn a_page_that_does_not_exist_has_no_diff() {
    let body = revision("a", None);
    assert_eq!(
        wiki_diff("p", None, EPOCH, NEXT_DAY, Some(&body), None, None),
        Err(ApiError::NotFound("wiki page not found".to_owned()))
    );
}

#[test]
fn a_missing_page_needs_no_comparison() {
    let report = wiki_diff("p", None, EPOCH, NEXT_DAY, None, None, None);
    assert_eq!(report, Err(ApiError::NotFound("wiki page not found".to_owned())));
}

#[test]
fn the_report_counts_the_lines_it_is_given() {
    let lines: Vec<String> = ["--- f", "+++ t", "@@ -1 +1,2 @@", "-a", "+b", "+c"]
        .map(str::to_owned)
        .to_vec();
    let before = ("a".to_owned(), String::new());
    let after = ("b\nc".to_owned(), "later".to_owned());
    let report =
        value(&diff_report("p", "P", EPOCH, NEXT_DAY, false, &before, &after, &lines));
    assert_eq!(report["added"], parsed(r#"["b", "c"]"#));
    assert_eq!(report["removed"], parsed(r#"["a"]"#));
    assert_eq!(report["added_count"], 2);
    assert_eq!(report["removed_count"], 1);
    assert_eq!(report["after_at"], "later");
    assert_eq!(report["changed"], true);
}
