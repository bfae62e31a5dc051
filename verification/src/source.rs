//! How an ingested source is shown: what kind it is of, its label, and where it leads.
use crate::text::{
    after_char, before_char, first_index, join, law_parts_around, lemma_first_index, part_after,
    part_before, starts_with, strip_prefix,
};
use vstd::prelude::*;
use vstd::string::*;

verus! {

/// How a source is shown.
#[derive(Debug, PartialEq, Eq)]
pub struct SourceDisplay {
    pub kind: String,
    pub label: String,
    pub url: String,
}

/// How a source is shown, as texts.
pub struct Display {
    pub kind: Seq<char>,
    pub label: Seq<char>,
    pub url: Seq<char>,
}

impl View for SourceDisplay {
    type V = Display;

    open spec fn view(&self) -> Display {
        Display { kind: self.kind@, label: self.label@, url: self.url@ }
    }
}

/// What follows `prefix` in `key`.
pub open spec fn behind(key: Seq<char>, prefix: Seq<char>) -> Seq<char> {
    key.skip(prefix.len() as int)
}

/// `start` followed by `end`, or nothing where `end` is empty.
pub open spec fn link_to(start: Seq<char>, end: Seq<char>) -> Seq<char> {
    if end.len() == 0 {
        Seq::empty()
    } else {
        start + end
    }
}

/// A pull request `<repo>#<number>`.
pub open spec fn pull_request(rest: Seq<char>) -> Display {
    let repo = before_char(rest, '#');
    let number = after_char(rest, '#');
    Display {
        kind: "pr"@,
        label: repo + "#"@ + number,
        url: link_to("https://github.com/"@ + repo + "/pull/"@, number),
    }
}

/// A release `<repo>@<tag>`.
pub open spec fn release(rest: Seq<char>) -> Display {
    let repo = before_char(rest, '@');
    let tag = after_char(rest, '@');
    Display {
        kind: "release"@,
        label: repo + " "@ + tag,
        url: link_to("https://github.com/"@ + repo + "/releases/tag/"@, tag),
    }
}

/// A source of the coordinator: a version, statistics, or another one.
pub open spec fn coordinator(rest: Seq<char>) -> Display {
    let (kind, label) = if "version:"@.is_prefix_of(rest) {
        ("coordinator_version"@, "coordinator "@ + behind(rest, "version:"@))
    } else if "stats:"@.is_prefix_of(rest) {
        ("coordinator_stats"@, "coordinator stats "@ + behind(rest, "stats:"@))
    } else {
        ("coordinator"@, rest)
    };
    Display { kind, label, url: "https://api.darkbloom.dev"@ }
}

/// A source that leads nowhere.
pub open spec fn unlinked(kind: Seq<char>, label: Seq<char>) -> Display {
    Display { kind, label, url: Seq::empty() }
}

/// How the source with the key `key` is shown.
pub open spec fn display_of(key: Seq<char>) -> Display {
    if "pr:"@.is_prefix_of(key) {
        pull_request(behind(key, "pr:"@))
    } else if "linear_project:"@.is_prefix_of(key) {
        unlinked("linear_project"@, behind(key, "linear_project:"@))
    } else if "linear:"@.is_prefix_of(key) {
        unlinked("linear"@, behind(key, "linear:"@))
    } else if "meeting:"@.is_prefix_of(key) {
        unlinked("meeting"@, "meeting notes"@)
    } else if "slack:"@.is_prefix_of(key) {
        unlinked("slack"@, behind(key, "slack:"@))
    } else if "doc:"@.is_prefix_of(key) {
        unlinked("doc"@, behind(key, "doc:"@))
    } else if "release:"@.is_prefix_of(key) {
        release(behind(key, "release:"@))
    } else if "tweet:"@.is_prefix_of(key) {
        let id = behind(key, "tweet:"@);
        Display {
            kind: "tweet"@,
            label: "tweet "@ + id,
            url: link_to("https://x.com/i/status/"@, id),
        }
    } else if "directive:"@.is_prefix_of(key) {
        unlinked(
            "directive"@,
            "directive from "@ + before_char(behind(key, "directive:"@), ':'),
        )
    } else if "coordinator:"@.is_prefix_of(key) {
        coordinator(behind(key, "coordinator:"@))
    } else {
        unlinked("other"@, key)
    }
}

/// A display without a link.
fn plain(kind: &str, label: &str) -> (r: SourceDisplay)
    ensures
        r@ == unlinked(kind@, label@),
{
    SourceDisplay { kind: kind.to_owned(), label: label.to_owned(), url: String::new() }
}

/// `start` followed by `end`, or nothing where `end` is empty.
fn link(start: &str, end: &str) -> (r: String)
    ensures
        r@ == link_to(start@, end@),
{
    if end.is_empty() {
        String::new()
    } else {
        join(start, end)
    }
}

/// A pull request.
fn show_pull_request(rest: &str) -> (r: SourceDisplay)
    ensures
        r@ == pull_request(rest@),
{
    let repo = part_before(rest, '#');
    let number = part_after(rest, '#');
    let mut label = join(repo.as_str(), "#");
    label.append(number.as_str());
    let mut page = join("https://github.com/", repo.as_str());
    page.append("/pull/");
    let url = link(page.as_str(), number.as_str());
    SourceDisplay { kind: "pr".to_owned(), label, url }
}

/// A release.
fn show_release(rest: &str) -> (r: SourceDisplay)
    ensures
        r@ == release(rest@),
{
    let repo = part_before(rest, '@');
    let tag = part_after(rest, '@');
    let mut label = join(repo.as_str(), " ");
    label.append(tag.as_str());
    let mut page = join("https://github.com/", repo.as_str());
    page.append("/releases/tag/");
    let url = link(page.as_str(), tag.as_str());
    SourceDisplay { kind: "release".to_owned(), label, url }
}

/// A source of the coordinator.
fn show_coordinator(rest: &str) -> (r: SourceDisplay)
    ensures
        r@ == coordinator(rest@),
{
    let url = "https://api.darkbloom.dev".to_owned();
    if let Some(commit) = strip_prefix(rest, "version:") {
        let label = join("coordinator ", commit.as_str());
        return SourceDisplay { kind: "coordinator_version".to_owned(), label, url };
    }
    if let Some(date) = strip_prefix(rest, "stats:") {
        let label = join("coordinator stats ", date.as_str());
        return SourceDisplay { kind: "coordinator_stats".to_owned(), label, url };
    }
    SourceDisplay { kind: "coordinator".to_owned(), label: rest.to_owned(), url }
}

/// How the source with the key `source_key` is shown.
pub fn source_display(source_key: &str) -> (r: SourceDisplay)
    ensures
        r@ == display_of(source_key@),
{
    if let Some(rest) = strip_prefix(source_key, "pr:") {
        return show_pull_request(rest.as_str());
    }
    if let Some(rest) = strip_prefix(source_key, "linear_project:") {
        return plain("linear_project", rest.as_str());
    }
    if let Some(rest) = strip_prefix(source_key, "linear:") {
        return plain("linear", rest.as_str());
    }
    if starts_with(source_key, "meeting:") {
        return plain("meeting", "meeting notes");
    }
    if let Some(rest) = strip_prefix(source_key, "slack:") {
        return plain("slack", rest.as_str());
    }
    if let Some(rest) = strip_prefix(source_key, "doc:") {
        return plain("doc", rest.as_str());
    }
    if let Some(rest) = strip_prefix(source_key, "release:") {
        return show_release(rest.as_str());
    }
    if let Some(rest) = strip_prefix(source_key, "tweet:") {
        let label = join("tweet ", rest.as_str());
        let url = link("https://x.com/i/status/", rest.as_str());
        return SourceDisplay { kind: "tweet".to_owned(), label, url };
    }
    if let Some(rest) = strip_prefix(source_key, "directive:") {
        let actor = part_before(rest.as_str(), ':');
        return plain("directive", join("directive from ", actor.as_str()).as_str());
    }
    if let Some(rest) = strip_prefix(source_key, "coordinator:") {
        return show_coordinator(rest.as_str());
    }
    plain("other", source_key)
}

/// A text is no prefix of one that differs from it within its length.
proof fn lemma_no_prefix(p: Seq<char>, s: Seq<char>, i: int)
    requires
        0 <= i < p.len(),
        i < s.len() ==> p[i] != s[i],
    ensures
        !p.is_prefix_of(s),
{
    if p.is_prefix_of(s) {
        assert(s.subrange(0, p.len() as int)[i] == s[i]);
    }
}

/// A text with something behind it starts with the text, and what follows is that.
proof fn lemma_prefix(p: Seq<char>, rest: Seq<char>)
    ensures
        p.is_prefix_of(p + rest),
        behind(p + rest, p) == rest,
{
    assert((p + rest).subrange(0, p.len() as int) =~= p);
    assert(behind(p + rest, p) =~= rest);
}

/// Each known kind of source key is shown as that kind, whatever follows its prefix.
pub proof fn law_known_prefixes(rest: Seq<char>)
    ensures
        display_of("pr:"@ + rest) == pull_request(rest),
        display_of("linear_project:"@ + rest) == unlinked("linear_project"@, rest),
        display_of("linear:"@ + rest) == unlinked("linear"@, rest),
        display_of("meeting:"@ + rest) == unlinked("meeting"@, "meeting notes"@),
        display_of("slack:"@ + rest) == unlinked("slack"@, rest),
        display_of("doc:"@ + rest) == unlinked("doc"@, rest),
        display_of("release:"@ + rest) == release(rest),
        display_of("tweet:"@ + rest) == (Display {
            kind: "tweet"@,
            label: "tweet "@ + rest,
            url: link_to("https://x.com/i/status/"@, rest),
        }),
        display_of("directive:"@ + rest) == unlinked(
            "directive"@,
            "directive from "@ + before_char(rest, ':'),
        ),
        display_of("coordinator:"@ + rest) == coordinator(rest),
{
    reveal_strlit("pr:");
    reveal_strlit("linear_project:");
    reveal_strlit("linear:");
    reveal_strlit("meeting:");
    reveal_strlit("slack:");
    reveal_strlit("doc:");
    reveal_strlit("release:");
    reveal_strlit("tweet:");
    reveal_strlit("directive:");
    reveal_strlit("coordinator:");
    lemma_prefix("pr:"@, rest);
    lemma_prefix("linear_project:"@, rest);
    let linear = "linear:"@ + rest;
    lemma_prefix("linear:"@, rest);
    lemma_no_prefix("pr:"@, "linear_project:"@ + rest, 0);
    lemma_no_prefix("pr:"@, linear, 0);
    lemma_no_prefix("linear_project:"@, linear, 6);
    let meeting = "meeting:"@ + rest;
    lemma_prefix("meeting:"@, rest);
    lemma_no_prefix("pr:"@, meeting, 0);
    lemma_no_prefix("linear_project:"@, meeting, 0);
    lemma_no_prefix("linear:"@, meeting, 0);
    let slack = "slack:"@ + rest;
    lemma_prefix("slack:"@, rest);
    lemma_no_prefix("pr:"@, slack, 0);
    lemma_no_prefix("linear_project:"@, slack, 0);
    lemma_no_prefix("linear:"@, slack, 0);
    lemma_no_prefix("meeting:"@, slack, 0);
    let doc = "doc:"@ + rest;
    lemma_prefix("doc:"@, rest);
    lemma_no_prefix("pr:"@, doc, 0);
    lemma_no_prefix("linear_project:"@, doc, 0);
    lemma_no_prefix("linear:"@, doc, 0);
    lemma_no_prefix("meeting:"@, doc, 0);
    lemma_no_prefix("slack:"@, doc, 0);
    let rel = "release:"@ + rest;
    lemma_prefix("release:"@, rest);
    lemma_no_prefix("pr:"@, rel, 0);
    lemma_no_prefix("linear_project:"@, rel, 0);
    lemma_no_prefix("linear:"@, rel, 0);
    lemma_no_prefix("meeting:"@, rel, 0);
    lemma_no_prefix("slack:"@, rel, 0);
    lemma_no_prefix("doc:"@, rel, 0);
    let tweet = "tweet:"@ + rest;
    lemma_prefix("tweet:"@, rest);
    lemma_no_prefix("pr:"@, tweet, 0);
    lemma_no_prefix("linear_project:"@, tweet, 0);
    lemma_no_prefix("linear:"@, tweet, 0);
    lemma_no_prefix("meeting:"@, tweet, 0);
    lemma_no_prefix("slack:"@, tweet, 0);
    lemma_no_prefix("doc:"@, tweet, 0);
    lemma_no_prefix("release:"@, tweet, 0);
    let directive = "directive:"@ + rest;
    lemma_prefix("directive:"@, rest);
    lemma_no_prefix("pr:"@, directive, 0);
    lemma_no_prefix("linear_project:"@, directive, 0);
    lemma_no_prefix("linear:"@, directive, 0);
    lemma_no_prefix("meeting:"@, directive, 0);
    lemma_no_prefix("slack:"@, directive, 0);
    lemma_no_prefix("doc:"@, directive, 1);
    lemma_no_prefix("release:"@, directive, 0);
    lemma_no_prefix("tweet:"@, directive, 0);
    let coord = "coordinator:"@ + rest;
    lemma_prefix("coordinator:"@, rest);
    lemma_no_prefix("pr:"@, coord, 0);
    lemma_no_prefix("linear_project:"@, coord, 0);
    lemma_no_prefix("linear:"@, coord, 0);
    lemma_no_prefix("meeting:"@, coord, 0);
    lemma_no_prefix("slack:"@, coord, 0);
    lemma_no_prefix("doc:"@, coord, 0);
    lemma_no_prefix("release:"@, coord, 0);
    lemma_no_prefix("tweet:"@, coord, 0);
    lemma_no_prefix("directive:"@, coord, 0);
}

/// A pull request of a numbered form is labelled by that form and leads to its page.
pub proof fn law_pull_request(repo: Seq<char>, number: Seq<char>)
    requires
        !repo.contains('#'),
        number.len() > 0,
    ensures
        display_of("pr:"@ + (repo + "#"@ + number)).label == repo + "#"@ + number,
        display_of("pr:"@ + (repo + "#"@ + number)).url == "https://github.com/"@ + repo
            + "/pull/"@ + number,
{
    reveal_strlit("#");
    let form = repo + "#"@ + number;
    law_known_prefixes(form);
    lemma_first_index(form, '#');
    assert(form[repo.len() as int] == '#');
    let at = first_index(form, '#');
    if at < repo.len() {
        assert(repo[at] == '#');
        assert(repo.contains('#'));
    }
    assert(before_char(form, '#') =~= repo);
    assert(after_char(form, '#') =~= number);
}

/// Each source is shown by what its key says. A release leads to its page, labelled by the
/// repository and the tag; a tweet leads to its page; the coordinator's sources lead to the
/// coordinator; a directive names who gave it; and an issue, a project, a message, a document and
/// the notes of a meeting lead nowhere.
pub proof fn law_sources_are_shown(a: Seq<char>, b: Seq<char>)
    ensures
        !a.contains('@') && b.len() > 0 ==> display_of("release:"@ + (a + "@"@ + b)) == (Display {
            kind: "release"@,
            label: a + " "@ + b,
            url: "https://github.com/"@ + a + "/releases/tag/"@ + b,
        }),
        !a.contains('@') ==> display_of("release:"@ + a) == (Display {
            kind: "release"@,
            label: a + " "@,
            url: Seq::empty(),
        }),
        !a.contains('#') ==> display_of("pr:"@ + a) == (Display {
            kind: "pr"@,
            label: a + "#"@,
            url: Seq::empty(),
        }),
        !a.contains('#') ==> display_of("pr:"@ + (a + "#"@ + b)).kind == "pr"@,
        a.len() > 0 ==> display_of("tweet:"@ + a) == (Display {
            kind: "tweet"@,
            label: "tweet "@ + a,
            url: "https://x.com/i/status/"@ + a,
        }),
        display_of("tweet:"@ + Seq::empty()).url.len() == 0,
        !a.contains(':') ==> display_of("directive:"@ + (a + ":"@ + b)) == (Display {
            kind: "directive"@,
            label: "directive from "@ + a,
            url: Seq::empty(),
        }),
        display_of("coordinator:"@ + ("version:"@ + a)) == (Display {
            kind: "coordinator_version"@,
            label: "coordinator "@ + a,
            url: "https://api.darkbloom.dev"@,
        }),
        display_of("coordinator:"@ + ("stats:"@ + a)) == (Display {
            kind: "coordinator_stats"@,
            label: "coordinator stats "@ + a,
            url: "https://api.darkbloom.dev"@,
        }),
        display_of("linear_project:"@ + a) == (Display {
            kind: "linear_project"@,
            label: a,
            url: Seq::empty(),
        }),
        display_of("linear:"@ + a) == (Display { kind: "linear"@, label: a, url: Seq::empty() }),
        display_of("slack:"@ + a) == (Display { kind: "slack"@, label: a, url: Seq::empty() }),
        display_of("doc:"@ + a) == (Display { kind: "doc"@, label: a, url: Seq::empty() }),
        display_of("meeting:"@ + a) == (Display {
            kind: "meeting"@,
            label: "meeting notes"@,
            url: Seq::empty(),
        }),
{
    let none = Seq::<char>::empty();
    reveal_strlit("@");
    reveal_strlit("#");
    reveal_strlit(":");
    reveal_strlit("version:");
    reveal_strlit("stats:");
    assert("@"@ =~= seq!['@']);
    assert("#"@ =~= seq!['#']);
    assert(":"@ =~= seq![':']);
    law_known_prefixes(a);
    law_known_prefixes(none);
    law_known_prefixes(a + "@"@ + b);
    law_known_prefixes(a + "#"@ + b);
    law_known_prefixes(a + ":"@ + b);
    law_known_prefixes("version:"@ + a);
    law_known_prefixes("stats:"@ + a);
    if !a.contains('@') {
        law_parts_around(a, '@', b);
        assert(a + " "@ + none =~= a + " "@);
    }
    if !a.contains('#') {
        law_parts_around(a, '#', b);
        assert(a + "#"@ + none =~= a + "#"@);
    }
    if !a.contains(':') {
        law_parts_around(a, ':', b);
    }
    lemma_prefix("version:"@, a);
    lemma_prefix("stats:"@, a);
    lemma_no_prefix("version:"@, "stats:"@ + a, 0);
}

/// A source whose key has no known start is of no known kind, is labelled by its key and leads
/// nowhere; and one of the coordinator that is neither a version nor statistics is labelled by the
/// rest of its key.
pub proof fn law_other_sources(key: Seq<char>)
    ensures
        !("pr:"@.is_prefix_of(key) || "linear_project:"@.is_prefix_of(key)
            || "linear:"@.is_prefix_of(key) || "meeting:"@.is_prefix_of(key)
            || "slack:"@.is_prefix_of(key) || "doc:"@.is_prefix_of(key)
            || "release:"@.is_prefix_of(key) || "tweet:"@.is_prefix_of(key)
            || "directive:"@.is_prefix_of(key) || "coordinator:"@.is_prefix_of(key))
            ==> display_of(key) == (Display { kind: "other"@, label: key, url: Seq::empty() }),
        !"version:"@.is_prefix_of(key) && !"stats:"@.is_prefix_of(key) ==> display_of(
            "coordinator:"@ + key,
        ) == (Display { kind: "coordinator"@, label: key, url: "https://api.darkbloom.dev"@ }),
{
    law_known_prefixes(key);
}

/// How a source is shown, by the texts that it holds.
pub proof fn law_display_is_its_texts(d: SourceDisplay)
    ensures
        d@.kind == d.kind@,
        d@.label == d.label@,
        d@.url == d.url@,
{
}

} // verus!
