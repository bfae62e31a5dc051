use centaur_wiki::source::source_display;

fn shown(key: &str) -> (String, String, String) {
    let d = source_display(key);
    (d.kind, d.label, d.url)
}

fn expect(key: &str, kind: &str, label: &str, url: &str) {
    assert_eq!(shown(key), (kind.to_owned(), label.to_owned(), url.to_owned()), "{key}");
}

#[test]
fn pull_requests() {
    expect(
        "pr:Layr-Labs/d-inference#338",
        "pr",
        "Layr-Labs/d-inference#338",
        "https://github.com/Layr-Labs/d-inference/pull/338",
    );
    expect("pr:repo", "pr", "repo#", "");
    expect("pr:repo#", "pr", "repo#", "");
    expect("pr:r#1#2", "pr", "r#1#2", "https://github.com/r/pull/1#2");
}

#[test]
fn plain_kinds() {
    expect("linear_project:Relay", "linear_project", "Relay", "");
    expect("linear:DAR-160", "linear", "DAR-160", "");
    expect("meeting:abc", "meeting", "meeting notes", "");
    expect("slack:C1:2", "slack", "C1:2", "");
    expect("doc:plan", "doc", "plan", "");
    expect("something", "other", "something", "");
    expect("", "other", "", "");
    expect("PR:x#1", "other", "PR:x#1", "");
}

#[test]
fn releases() {
    expect(
        "release:o/r@v1.2",
        "release",
        "o/r v1.2",
        "https://github.com/o/r/releases/tag/v1.2",
    );
    expect("release:o/r", "release", "o/r ", "");
}

#[test]
fn tweets() {
    expect("tweet:17", "tweet", "tweet 17", "https://x.com/i/status/17");
    expect("tweet:", "tweet", "tweet ", "");
}

#[test]
fn directives() {
    expect("directive:U1:1700.2", "directive", "directive from U1", "");
    expect("directive:", "directive", "directive from ", "");
}

#[test]
fn coordinator_events() {
    let url = "https://api.darkbloom.dev";
    expect("coordinator:version:abc", "coordinator_version", "coordinator abc", url);
    expect("coordinator:stats:2026-01-01", "coordinator_stats", "coordinator stats 2026-01-01", url);
    expect("coordinator:other", "coordinator", "other", url);
}
