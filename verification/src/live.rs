//! What the outside services say happened: the requests made to them, and the items read from
//! their replies.
use crate::clock::{
    iso, iso_text, parse_moment, stated_moment, Timestamp, FIRST, LAST, SECOND,
};
use crate::decimal::{
    decimal, decimal_i64, digits, law_decimal_round_trip, lemma_digits_round_trip, parse_i64,
    to_decimal,
};
use crate::json::{
    append, array_view, field, i64_value, is_true, items_of, lemma_array_view, put, put_text,
    text_at, text_value, Json, JsonView,
};
use crate::order::{comes_before, precedes};
use crate::query::{decoded, law_query_value_round_trip, qenc, query_value};
use crate::text::{
    before_char, blank, join, law_parts_around, law_trimmed_ends, leading, part_before, take_chars,
    trim, trimmed,
};
use vstd::prelude::*;
use vstd::string::*;

verus! {

/// How many pull requests of a repository are reported.
pub const PER_REPO: usize = 50;

/// How many messages of a channel are looked at.
pub const PER_CHANNEL: usize = 60;

/// How many characters of a body are reported.
pub const BODY: usize = 800;

/// How many characters of a message make its title.
pub const TITLE: usize = 160;

/// What a service replied about one repository or channel. There is no body where the request
/// failed, was refused, or was answered by something other than JSON.
#[derive(Debug, PartialEq, Eq)]
pub struct Reply {
    pub name: String,
    pub body: Option<Json>,
}

/// The value that a reply's body stands for.
pub open spec fn body_view(body: Option<Json>) -> Option<JsonView> {
    match body {
        Some(json) => Some(json@),
        None => None,
    }
}

/// At most the first `n` items.
pub open spec fn first_items<T>(items: Seq<T>, n: nat) -> Seq<T> {
    if items.len() <= n {
        items
    } else {
        items.take(n as int)
    }
}

/// The text of the field `inner` of the field `outer`.
pub open spec fn text_in(json: JsonView, outer: Seq<char>, inner: Seq<char>) -> Seq<char> {
    match field(json, outer) {
        Some(v) => text_at(v, inner),
        None => Seq::empty(),
    }
}

/// The text of the field `inner` of the field `outer`.
fn get_text_in(json: &Json, outer: &str, inner: &str) -> (r: String)
    ensures
        r@ == text_in(json@, outer@, inner@),
{
    match json.get(outer) {
        Some(v) => v.get_text(inner),
        None => {
            proof {
                reveal_strlit("");
                assert(""@ =~= Seq::empty());
            }
            String::new()
        },
    }
}

// Merged pull requests.

/// Where the merged pull requests of a repository are asked for.
pub open spec fn merged_prs_address(repo: Seq<char>, since: Seq<char>) -> Seq<char> {
    "https://api.github.com/search/issues?q="@ + query_value(
        "repo:"@ + repo + " is:pr is:merged merged:>="@ + since,
    ) + "&per_page=50&sort=created&order=desc"@
}

/// Where the pull requests of `repo` that were merged since `start` are asked for.
pub fn merged_prs_url(repo: &str, start: Timestamp) -> (r: String)
    ensures
        r@ == merged_prs_address(repo@, iso_text(Some(start))),
{
    let mut query = join("repo:", repo);
    query.append(" is:pr is:merged merged:>=");
    query.append(iso(Some(start)).as_str());
    let mut url = join("https://api.github.com/search/issues?q=", qenc(query.as_str()).as_str());
    url.append("&per_page=50&sort=created&order=desc");
    url
}

/// The number of a pull request; zero where the reply has none.
pub open spec fn pr_number(item: JsonView) -> i64 {
    match i64_value(field(item, "number"@)) {
        Some(n) => n,
        None => 0,
    }
}

/// When a pull request was merged: when it was closed, else when it was last changed.
pub open spec fn pr_time(item: JsonView) -> Seq<char> {
    match text_value(field(item, "closed_at"@)) {
        Some(s) => s,
        None => text_at(item, "updated_at"@),
    }
}

/// A merged pull request.
pub open spec fn merged_pr_json(repo: Seq<char>, item: JsonView) -> JsonView {
    let number = decimal(pr_number(item) as int);
    JsonView::Object(
        map![
            "kind"@ => JsonView::Str("pr"@),
            "repo"@ => JsonView::Str(repo),
            "id"@ => JsonView::Str(repo + "#"@ + number),
            "title"@ => JsonView::Str(text_at(item, "title"@)),
            "author"@ => JsonView::Str(text_in(item, "user"@, "login"@)),
            "occurred_at"@ => JsonView::Str(pr_time(item)),
            "url"@ => JsonView::Str("https://github.com/"@ + repo + "/pull/"@ + number),
            "body"@ => JsonView::Str(leading(text_at(item, "body"@), BODY as nat)),
        ],
    )
}

/// The merged pull requests that a reply names.
pub open spec fn prs_in(repo: Seq<char>, body: Option<JsonView>, per_repo: nat) -> Seq<JsonView> {
    match body {
        Some(body) => first_items(items_of(field(body, "items"@)), per_repo).map_values(
            |item: JsonView| merged_pr_json(repo, item),
        ),
        None => Seq::empty(),
    }
}

/// The merged pull requests that replies name.
pub open spec fn merged_prs(replies: Seq<Reply>, per_repo: nat) -> Seq<JsonView>
    decreases replies.len(),
{
    if replies.len() == 0 {
        Seq::empty()
    } else {
        merged_prs(replies.drop_last(), per_repo) + prs_in(
            replies.last().name@,
            body_view(replies.last().body),
            per_repo,
        )
    }
}

/// A merged pull request.
fn merged_pr(repo: &str, item: &Json) -> (r: Json)
    ensures
        r@ == merged_pr_json(repo@, item@),
{
    let number: i64 = match item.get_i64("number") {
        Some(n) => n,
        None => 0,
    };
    let number = to_decimal(number);
    let when: String = match item.get_str("closed_at") {
        Some(s) => s,
        None => item.get_text("updated_at"),
    };
    let mut id = join(repo, "#");
    id.append(number.as_str());
    let mut url = join("https://github.com/", repo);
    url.append("/pull/");
    url.append(number.as_str());
    let mut fields: Vec<(String, Json)> = Vec::new();
    put_text(&mut fields, "kind", "pr");
    put_text(&mut fields, "repo", repo);
    put_text(&mut fields, "id", id.as_str());
    put_text(&mut fields, "title", item.get_text("title").as_str());
    put_text(&mut fields, "author", get_text_in(item, "user", "login").as_str());
    put_text(&mut fields, "occurred_at", when.as_str());
    put_text(&mut fields, "url", url.as_str());
    put_text(&mut fields, "body", take_chars(item.get_text("body").as_str(), BODY).as_str());
    Json::Object(fields)
}

/// Appends the merged pull requests that a reply names.
fn add_merged_prs(out: &mut Vec<Json>, repo: &str, body: &Json, per_repo: usize)
    ensures
        array_view(final(out)@) == array_view(old(out)@) + prs_in(
            repo@,
            Some(body@),
            per_repo as nat,
        ),
{
    let ghost all = first_items(items_of(field(body@, "items"@)), per_repo as nat);
    let ghost start = array_view(out@);
    if let Some(list) = body.get("items") {
        if let Some(items) = list.as_array() {
            let mut i: usize = 0;
            proof {
                lemma_array_view(items@);
                assert(array_view(out@) =~= start + all.take(0).map_values(
                    |item: JsonView| merged_pr_json(repo@, item),
                ));
            }
            while i < items.len() && i < per_repo
                invariant
                    i <= items@.len(),
                    i <= per_repo,
                    all == first_items(array_view(items@), per_repo as nat),
                    array_view(items@).len() == items@.len(),
                    forall|j: int|
                        0 <= j < items@.len() ==> #[trigger] array_view(items@)[j] == items@[j]@,
                    array_view(out@) == start + all.take(i as int).map_values(
                        |item: JsonView| merged_pr_json(repo@, item),
                    ),
                decreases items@.len() - i,
            {
                append(out, merged_pr(repo, &items[i]));
                proof {
                    assert(all[i as int] == items@[i as int]@);
                    assert(all.take(i + 1).map_values(|item: JsonView| merged_pr_json(repo@, item))
                        =~= all.take(i as int).map_values(
                        |item: JsonView| merged_pr_json(repo@, item),
                    ).push(merged_pr_json(repo@, all[i as int])));
                }
                i += 1;
            }
            proof {
                assert(all.take(i as int) =~= all);
            }
            return ;
        }
    }
    proof {
        assert(all.len() == 0);
        assert(array_view(out@) =~= start + all.map_values(
            |item: JsonView| merged_pr_json(repo@, item),
        ));
    }
}

/// The merged pull requests that replies name, at most `per_repo` of each repository.
pub fn fetch_live_merged_prs(replies: &Vec<Reply>, per_repo: usize) -> (r: Vec<Json>)
    ensures
        array_view(r@) == merged_prs(replies@, per_repo as nat),
{
    let mut out: Vec<Json> = Vec::new();
    let mut i: usize = 0;
    while i < replies.len()
        invariant
            i <= replies@.len(),
            array_view(out@) == merged_prs(replies@.take(i as int), per_repo as nat),
        decreases replies@.len() - i,
    {
        let ghost before = array_view(out@);
        if let Some(body) = &replies[i].body {
            add_merged_prs(&mut out, replies[i].name.as_str(), body, per_repo);
        }
        proof {
            assert(replies@.take(i + 1).drop_last() =~= replies@.take(i as int));
            assert(before + Seq::<JsonView>::empty() =~= before);
        }
        i += 1;
    }
    proof {
        assert(replies@.take(i as int) =~= replies@);
    }
    out
}

// Releases.

/// Where the releases of a repository are asked for.
pub open spec fn releases_address(repo: Seq<char>) -> Seq<char> {
    "https://api.github.com/repos/"@ + repo + "/releases?per_page=20"@
}

/// Where the releases of `repo` are asked for.
pub fn releases_url(repo: &str) -> (r: String)
    ensures
        r@ == releases_address(repo@),
{
    let mut url = join("https://api.github.com/repos/", repo);
    url.append("/releases?per_page=20");
    url
}

/// Whether something happened no earlier than `start`. A time that cannot be read is compared as
/// a text with that of `start`.
pub open spec fn not_before(time: Seq<char>, start: Timestamp) -> bool {
    match stated_moment(Some(time)) {
        Some(moment) => moment.unix_nanos() >= start.unix_nanos(),
        None => !precedes(time, iso_text(Some(start))),
    }
}

/// Whether a release is reported: it is no draft, it was published, and not before `start`.
pub open spec fn is_reported(item: JsonView, start: Timestamp) -> bool {
    let published = text_at(item, "published_at"@);
    !is_true(field(item, "draft"@)) && published.len() > 0 && not_before(published, start)
}

/// Whether something happened no earlier than `start`: by the point in time that its text states,
/// or by the text itself where it states none. `since` is the text of `start`.
pub fn is_since(moment: Option<Timestamp>, time: &str, start: Timestamp, since: &str) -> (r: bool)
    requires
        moment matches Some(t) ==> t.valid(),
        start.valid(),
    ensures
        r == match moment {
            Some(t) => t.unix_nanos() >= start.unix_nanos(),
            None => !precedes(time@, since@),
        },
{
    match moment {
        Some(t) => t.unix_timestamp_nanos() >= start.unix_timestamp_nanos(),
        None => !comes_before(time, since),
    }
}

/// The name of a release: its own, else that of its tag.
pub open spec fn release_name(item: JsonView) -> Seq<char> {
    match text_value(field(item, "name"@)) {
        Some(s) => s,
        None => text_at(item, "tag_name"@),
    }
}

/// A release.
pub open spec fn release_json(repo: Seq<char>, item: JsonView) -> JsonView {
    JsonView::Object(
        map![
            "kind"@ => JsonView::Str("release"@),
            "repo"@ => JsonView::Str(repo),
            "id"@ => JsonView::Str(repo + "@"@ + text_at(item, "tag_name"@)),
            "title"@ => JsonView::Str(release_name(item)),
            "occurred_at"@ => JsonView::Str(text_at(item, "published_at"@)),
            "url"@ => JsonView::Str(text_at(item, "html_url"@)),
            "body"@ => JsonView::Str(leading(text_at(item, "body"@), BODY as nat)),
        ],
    )
}

/// The releases among `items` that are reported.
pub open spec fn releases_in(repo: Seq<char>, items: Seq<JsonView>, start: Timestamp) -> Seq<
    JsonView,
>
    decreases items.len(),
{
    if items.len() == 0 {
        Seq::empty()
    } else {
        let others = releases_in(repo, items.drop_last(), start);
        if is_reported(items.last(), start) {
            others.push(release_json(repo, items.last()))
        } else {
            others
        }
    }
}

/// The releases that replies name.
pub open spec fn releases(replies: Seq<Reply>, start: Timestamp) -> Seq<JsonView>
    decreases replies.len(),
{
    if replies.len() == 0 {
        Seq::empty()
    } else {
        releases(replies.drop_last(), start) + releases_in(
            replies.last().name@,
            items_of(body_view(replies.last().body)),
            start,
        )
    }
}

/// A release.
fn release(repo: &str, item: &Json) -> (r: Json)
    ensures
        r@ == release_json(repo@, item@),
{
    let tag = item.get_text("tag_name");
    let mut id = join(repo, "@");
    id.append(tag.as_str());
    let name: String = match item.get_str("name") {
        Some(s) => s,
        None => tag,
    };
    let mut fields: Vec<(String, Json)> = Vec::new();
    put_text(&mut fields, "kind", "release");
    put_text(&mut fields, "repo", repo);
    put_text(&mut fields, "id", id.as_str());
    put_text(&mut fields, "title", name.as_str());
    put_text(&mut fields, "occurred_at", item.get_text("published_at").as_str());
    put_text(&mut fields, "url", item.get_text("html_url").as_str());
    put_text(&mut fields, "body", take_chars(item.get_text("body").as_str(), BODY).as_str());
    Json::Object(fields)
}

/// Appends the releases of a reply that are reported.
fn add_releases(out: &mut Vec<Json>, repo: &str, items: &Vec<Json>, start: Timestamp, since: &str)
    requires
        start.valid(),
        since@ == iso_text(Some(start)),
    ensures
        array_view(final(out)@) == array_view(old(out)@) + releases_in(
            repo@,
            array_view(items@),
            start,
        ),
{
    let ghost all = array_view(items@);
    let ghost first = array_view(out@);
    let mut i: usize = 0;
    proof {
        lemma_array_view(items@);
        assert(array_view(out@) =~= first + releases_in(repo@, all.take(0), start));
    }
    while i < items.len()
        invariant
            i <= items@.len(),
            all.len() == items@.len(),
            forall|j: int| 0 <= j < items@.len() ==> #[trigger] all[j] == items@[j]@,
            start.valid(),
            since@ == iso_text(Some(start)),
            array_view(out@) == first + releases_in(repo@, all.take(i as int), start),
        decreases items@.len() - i,
    {
        let item = &items[i];
        let ghost before = array_view(out@);
        let published = item.get_text("published_at");
        if !item.get_flag("draft") && !published.as_str().is_empty() && is_since(
            parse_moment(Some(published.as_str())),
            published.as_str(),
            start,
            since,
        ) {
            append(out, release(repo, item));
        }
        proof {
            assert(all[i as int] == item@);
            assert(all.take(i + 1).drop_last() =~= all.take(i as int));
            assert(array_view(out@) =~= first + releases_in(repo@, all.take(i + 1), start));
        }
        i += 1;
    }
    proof {
        assert(all.take(i as int) =~= all);
    }
}

/// The releases that replies name, published since `start`.
pub fn fetch_live_releases(replies: &Vec<Reply>, start: Timestamp) -> (r: Vec<Json>)
    requires
        start.valid(),
    ensures
        array_view(r@) == releases(replies@, start),
{
    let since = iso(Some(start));
    let mut out: Vec<Json> = Vec::new();
    let mut i: usize = 0;
    while i < replies.len()
        invariant
            i <= replies@.len(),
            start.valid(),
            since@ == iso_text(Some(start)),
            array_view(out@) == releases(replies@.take(i as int), start),
        decreases replies@.len() - i,
    {
        let ghost before = array_view(out@);
        if let Some(body) = &replies[i].body {
            if let Some(items) = body.as_array() {
                add_releases(&mut out, replies[i].name.as_str(), items, start, since.as_str());
            }
        }
        proof {
            assert(replies@.take(i + 1).drop_last() =~= replies@.take(i as int));
            assert(before + Seq::<JsonView>::empty() =~= before);
        }
        i += 1;
    }
    proof {
        assert(replies@.take(i as int) =~= replies@);
    }
    out
}

// Linear issues.

/// The query that asks Linear for the issues of a team.
pub const LINEAR_QUERY: &'static str = "query($teamId:String!,$since:DateTimeOrDuration!){ team(id:$teamId){ issues(filter:{updatedAt:{gt:$since}}, first:50, orderBy:updatedAt){ nodes{ identifier title url updatedAt state{name type} assignee{name} } } } }";

/// The request for the issues of a team.
pub open spec fn linear_request_json(team: Seq<char>, since: Seq<char>) -> JsonView {
    JsonView::Object(
        map![
            "query"@ => JsonView::Str(LINEAR_QUERY@),
            "variables"@ => JsonView::Object(
                map!["teamId"@ => JsonView::Str(team), "since"@ => JsonView::Str(since)],
            ),
        ],
    )
}

/// The request for the issues of `team` that were changed since `start`.
pub fn linear_request(team: &str, start: Timestamp) -> (r: Json)
    ensures
        r@ == linear_request_json(team@, iso_text(Some(start))),
{
    let mut variables: Vec<(String, Json)> = Vec::new();
    put_text(&mut variables, "teamId", team);
    put_text(&mut variables, "since", iso(Some(start)).as_str());
    let mut fields: Vec<(String, Json)> = Vec::new();
    put_text(&mut fields, "query", LINEAR_QUERY);
    put(&mut fields, "variables", Json::Object(variables));
    Json::Object(fields)
}

/// The field `name` of a value that may be absent.
pub open spec fn field_of(json: Option<JsonView>, name: Seq<char>) -> Option<JsonView> {
    match json {
        Some(json) => field(json, name),
        None => None,
    }
}

/// The issues in a reply.
pub open spec fn nodes_in(body: Option<JsonView>) -> Seq<JsonView> {
    items_of(field_of(field_of(field_of(field_of(body, "data"@), "team"@), "issues"@), "nodes"@))
}

/// An issue.
pub open spec fn issue_json(node: JsonView) -> JsonView {
    JsonView::Object(
        map![
            "kind"@ => JsonView::Str("linear"@),
            "id"@ => JsonView::Str(text_at(node, "identifier"@)),
            "title"@ => JsonView::Str(text_at(node, "title"@)),
            "state"@ => JsonView::Str(text_in(node, "state"@, "name"@)),
            "assignee"@ => JsonView::Str(text_in(node, "assignee"@, "name"@)),
            "occurred_at"@ => JsonView::Str(text_at(node, "updatedAt"@)),
            "url"@ => JsonView::Str(text_at(node, "url"@)),
        ],
    )
}

/// The issues that a reply names.
pub open spec fn issues(body: Option<JsonView>) -> Seq<JsonView> {
    nodes_in(body).map_values(|node: JsonView| issue_json(node))
}

/// An issue.
fn issue(node: &Json) -> (r: Json)
    ensures
        r@ == issue_json(node@),
{
    let mut fields: Vec<(String, Json)> = Vec::new();
    put_text(&mut fields, "kind", "linear");
    put_text(&mut fields, "id", node.get_text("identifier").as_str());
    put_text(&mut fields, "title", node.get_text("title").as_str());
    put_text(&mut fields, "state", get_text_in(node, "state", "name").as_str());
    put_text(&mut fields, "assignee", get_text_in(node, "assignee", "name").as_str());
    put_text(&mut fields, "occurred_at", node.get_text("updatedAt").as_str());
    put_text(&mut fields, "url", node.get_text("url").as_str());
    Json::Object(fields)
}

/// A value that may be absent, by what it stands for.
pub open spec fn value_view(json: Option<&Json>) -> Option<JsonView> {
    match json {
        Some(json) => Some(json@),
        None => None,
    }
}

/// The field `name` of a value that may be absent.
fn get_field<'a>(json: Option<&'a Json>, name: &str) -> (r: Option<&'a Json>)
    ensures
        value_view(r) == field_of(value_view(json), name@),
{
    match json {
        Some(json) => json.get(name),
        None => None,
    }
}

/// The issues that a reply names.
pub fn fetch_live_linear(body: Option<&Json>) -> (r: Vec<Json>)
    ensures
        array_view(r@) == issues(value_view(body)),
{
    let mut out: Vec<Json> = Vec::new();
    let found = get_field(get_field(get_field(get_field(body, "data"), "team"), "issues"), "nodes");
    let ghost all = nodes_in(value_view(body));
    if let Some(list) = found {
        if let Some(nodes) = list.as_array() {
            let mut i: usize = 0;
            proof {
                lemma_array_view(nodes@);
                assert(array_view(out@) =~= all.take(0).map_values(
                    |node: JsonView| issue_json(node),
                ));
            }
            while i < nodes.len()
                invariant
                    i <= nodes@.len(),
                    all.len() == nodes@.len(),
                    forall|j: int| 0 <= j < nodes@.len() ==> #[trigger] all[j] == nodes@[j]@,
                    array_view(out@) == all.take(i as int).map_values(
                        |node: JsonView| issue_json(node),
                    ),
                decreases nodes@.len() - i,
            {
                append(&mut out, issue(&nodes[i]));
                proof {
                    assert(all[i as int] == nodes@[i as int]@);
                    assert(all.take(i + 1).map_values(|node: JsonView| issue_json(node))
                        =~= all.take(i as int).map_values(|node: JsonView| issue_json(node)).push(
                        issue_json(all[i as int]),
                    ));
                }
                i += 1;
            }
            proof {
                assert(all.take(i as int) =~= all);
            }
            return out;
        }
    }
    proof {
        assert(all.len() == 0);
        assert(array_view(out@) =~= all.map_values(|node: JsonView| issue_json(node)));
    }
    out
}

// Slack messages.

/// Where the history of a channel is asked for.
pub open spec fn slack_address(channel: Seq<char>, oldest: int) -> Seq<char> {
    "https://slack.com/api/conversations.history?channel="@ + query_value(channel) + "&oldest="@
        + query_value(decimal(oldest)) + "&limit=60"@
}

/// Where the history of `channel` since `start` is asked for.
pub fn slack_url(channel: &str, start: Timestamp) -> (r: String)
    requires
        start.valid(),
    ensures
        r@ == slack_address(channel@, start.unix_nanos() / (SECOND as int)),
{
    let oldest = to_decimal(start.unix_timestamp());
    let mut url = join(
        "https://slack.com/api/conversations.history?channel=",
        qenc(channel).as_str(),
    );
    url.append("&oldest=");
    url.append(qenc(oldest.as_str()).as_str());
    url.append("&limit=60");
    url
}

/// When a message was sent. Its stamp is the seconds since 1970, a full stop and a number; the
/// time is empty where the stamp holds no time that a date of at most four digits' years has.
pub open spec fn message_time(stamp: Seq<char>) -> Seq<char> {
    match decimal_i64(before_char(stamp, '.')) {
        Some(seconds) => if FIRST <= seconds * SECOND <= LAST {
            iso_text(Some(Timestamp { local_nanos: (seconds * SECOND) as i128, offset_seconds: 0 }))
        } else {
            Seq::empty()
        },
        None => Seq::empty(),
    }
}

/// Whether a message is reported: it is no notice of the service, and has a text.
pub open spec fn is_message(item: JsonView) -> bool {
    text_value(field(item, "subtype"@)) is None && trimmed(text_at(item, "text"@)).len() > 0
}

/// A message.
pub open spec fn message_json(channel: Seq<char>, item: JsonView) -> JsonView {
    let text = text_at(item, "text"@);
    let stamp = text_at(item, "ts"@);
    JsonView::Object(
        map![
            "kind"@ => JsonView::Str("slack"@),
            "channel_id"@ => JsonView::Str(channel),
            "id"@ => JsonView::Str("slack:"@ + channel + ":"@ + stamp),
            "title"@ => JsonView::Str(leading(text, TITLE as nat)),
            "occurred_at"@ => JsonView::Str(message_time(stamp)),
            "url"@ => JsonView::Str(""@),
            "body"@ => JsonView::Str(leading(text, BODY as nat)),
        ],
    )
}

/// The messages among `items` that are reported.
pub open spec fn messages_in(channel: Seq<char>, items: Seq<JsonView>) -> Seq<JsonView>
    decreases items.len(),
{
    if items.len() == 0 {
        Seq::empty()
    } else {
        let others = messages_in(channel, items.drop_last());
        if is_message(items.last()) {
            others.push(message_json(channel, items.last()))
        } else {
            others
        }
    }
}

/// The items of a channel that are looked at: the first `per_channel` of a reply that says that
/// it is in order.
pub open spec fn history_of(body: Option<JsonView>, per_channel: nat) -> Seq<JsonView> {
    if is_true(field_of(body, "ok"@)) {
        first_items(items_of(field_of(body, "messages"@)), per_channel)
    } else {
        Seq::empty()
    }
}

/// The messages that replies name.
pub open spec fn messages(replies: Seq<Reply>, per_channel: nat) -> Seq<JsonView>
    decreases replies.len(),
{
    if replies.len() == 0 {
        Seq::empty()
    } else {
        messages(replies.drop_last(), per_channel) + messages_in(
            replies.last().name@,
            history_of(body_view(replies.last().body), per_channel),
        )
    }
}

/// When a message was sent.
pub fn slack_time(stamp: &str) -> (r: String)
    ensures
        r@ == message_time(stamp@),
{
    proof {
        reveal_strlit("");
        assert(""@ =~= Seq::empty());
    }
    match parse_i64(part_before(stamp, '.').as_str()) {
        Some(seconds) => {
            let nanos: i128 = seconds as i128 * SECOND;
            if FIRST <= nanos && nanos <= LAST {
                iso(Some(Timestamp { local_nanos: nanos, offset_seconds: 0 }))
            } else {
                String::new()
            }
        },
        None => String::new(),
    }
}

/// A message.
fn message(channel: &str, item: &Json) -> (r: Json)
    ensures
        r@ == message_json(channel@, item@),
{
    let text = item.get_text("text");
    let stamp = item.get_text("ts");
    let mut id = join("slack:", channel);
    id.append(":");
    id.append(stamp.as_str());
    let mut fields: Vec<(String, Json)> = Vec::new();
    put_text(&mut fields, "kind", "slack");
    put_text(&mut fields, "channel_id", channel);
    put_text(&mut fields, "id", id.as_str());
    put_text(&mut fields, "title", take_chars(text.as_str(), TITLE).as_str());
    put_text(&mut fields, "occurred_at", slack_time(stamp.as_str()).as_str());
    put_text(&mut fields, "url", "");
    put_text(&mut fields, "body", take_chars(text.as_str(), BODY).as_str());
    Json::Object(fields)
}

/// Appends the messages among the first `per_channel` items that are reported.
fn add_messages(out: &mut Vec<Json>, channel: &str, items: &Vec<Json>, per_channel: usize)
    ensures
        array_view(final(out)@) == array_view(old(out)@) + messages_in(
            channel@,
            first_items(array_view(items@), per_channel as nat),
        ),
{
    let ghost all = first_items(array_view(items@), per_channel as nat);
    let ghost start = array_view(out@);
    let mut i: usize = 0;
    proof {
        lemma_array_view(items@);
        assert(array_view(out@) =~= start + messages_in(channel@, all.take(0)));
    }
    while i < items.len() && i < per_channel
        invariant
            i <= items@.len(),
            i <= per_channel,
            all == first_items(array_view(items@), per_channel as nat),
            array_view(items@).len() == items@.len(),
            forall|j: int| 0 <= j < items@.len() ==> #[trigger] array_view(items@)[j] == items@[j]@,
            array_view(out@) == start + messages_in(channel@, all.take(i as int)),
        decreases items@.len() - i,
    {
        let item = &items[i];
        let ghost before = array_view(out@);
        if item.get_str("subtype").is_none() && !trim(item.get_text("text").as_str()).as_str().is_empty() {
            append(out, message(channel, item));
        }
        proof {
            assert(all[i as int] == item@);
            assert(all.take(i + 1).drop_last() =~= all.take(i as int));
            assert(array_view(out@) =~= start + messages_in(channel@, all.take(i + 1)));
        }
        i += 1;
    }
    proof {
        assert(all.take(i as int) =~= all);
    }
}

/// The messages that replies name, out of the first `per_channel` items of each channel.
pub fn fetch_live_slack(replies: &Vec<Reply>, per_channel: usize) -> (r: Vec<Json>)
    ensures
        array_view(r@) == messages(replies@, per_channel as nat),
{
    let mut out: Vec<Json> = Vec::new();
    let mut i: usize = 0;
    while i < replies.len()
        invariant
            i <= replies@.len(),
            array_view(out@) == messages(replies@.take(i as int), per_channel as nat),
        decreases replies@.len() - i,
    {
        let ghost before = array_view(out@);
        if let Some(body) = &replies[i].body {
            if body.get_flag("ok") {
                if let Some(list) = body.get("messages") {
                    if let Some(items) = list.as_array() {
                        add_messages(&mut out, replies[i].name.as_str(), items, per_channel);
                    }
                }
            }
        }
        proof {
            assert(replies@.take(i + 1).drop_last() =~= replies@.take(i as int));
            assert(before + Seq::<JsonView>::empty() =~= before);
        }
        i += 1;
    }
    proof {
        assert(replies@.take(i as int) =~= replies@);
    }
    out
}

proof fn lemma_release_time(repo: Seq<char>, item: JsonView)
    ensures
        text_at(release_json(repo, item), "occurred_at"@) == text_at(item, "published_at"@),
{
    reveal_strlit("occurred_at");
    reveal_strlit("url");
    reveal_strlit("body");
    assert("occurred_at"@.len() == 11);
    assert("url"@.len() == 3);
    assert("body"@.len() == 4);
}

proof fn lemma_releases_in(repo: Seq<char>, items: Seq<JsonView>, start: Timestamp, i: int)
    requires
        0 <= i < releases_in(repo, items, start).len(),
    ensures
        not_before(text_at(releases_in(repo, items, start)[i], "occurred_at"@), start),
    decreases items.len(),
{
    lemma_release_time(repo, items.last());
    if i < releases_in(repo, items.drop_last(), start).len() {
        lemma_releases_in(repo, items.drop_last(), start, i);
    }
}

/// No release is reported that was published before the time that was asked about, whatever the
/// offsets at which the two times are stated.
pub proof fn law_releases_are_recent(replies: Seq<Reply>, start: Timestamp, i: int)
    requires
        0 <= i < releases(replies, start).len(),
    ensures
        not_before(text_at(releases(replies, start)[i], "occurred_at"@), start),
    decreases replies.len(),
{
    let before = releases(replies.drop_last(), start);
    let last = replies.last();
    if i < before.len() {
        law_releases_are_recent(replies.drop_last(), start, i);
    } else {
        lemma_releases_in(last.name@, items_of(body_view(last.body)), start, i - before.len());
    }
}

/// At most `per_repo` pull requests are reported for each repository.
pub proof fn law_pull_requests_are_bounded(replies: Seq<Reply>, per_repo: nat)
    ensures
        merged_prs(replies, per_repo).len() <= replies.len() * per_repo,
    decreases replies.len(),
{
    if replies.len() > 0 {
        let rest = replies.drop_last();
        law_pull_requests_are_bounded(rest, per_repo);
        assert(replies.len() * per_repo == rest.len() * per_repo + per_repo) by (nonlinear_arith)
            requires
                replies.len() == rest.len() + 1,
        ;
    } else {
        assert(replies.len() * per_repo == 0) by (nonlinear_arith)
            requires
                replies.len() == 0,
        ;
    }
}

// What items say.

/// A text, or an empty one where there is none.
pub open spec fn or_empty(text: Option<Seq<char>>) -> Seq<char> {
    match text {
        Some(s) => s,
        None => Seq::empty(),
    }
}

/// An item made of an issue says what the issue says, and is empty where the issue says nothing:
/// its identifier, its title, the name of its state, the name of whoever it is assigned to, when it
/// was changed, and where it is.
pub proof fn law_issue_says_what_node_says(node: JsonView)
    ensures
        ({
            let item = issue_json(node);
            &&& field(item, "kind"@) == Some(JsonView::Str("linear"@))
            &&& field(item, "id"@) == Some(
                JsonView::Str(or_empty(text_value(field(node, "identifier"@)))),
            )
            &&& field(item, "title"@) == Some(
                JsonView::Str(or_empty(text_value(field(node, "title"@)))),
            )
            &&& field(item, "state"@) == Some(
                JsonView::Str(or_empty(text_value(field_of(field(node, "state"@), "name"@)))),
            )
            &&& field(item, "assignee"@) == Some(
                JsonView::Str(or_empty(text_value(field_of(field(node, "assignee"@), "name"@)))),
            )
            &&& field(item, "occurred_at"@) == Some(
                JsonView::Str(or_empty(text_value(field(node, "updatedAt"@)))),
            )
            &&& field(item, "url"@) == Some(
                JsonView::Str(or_empty(text_value(field(node, "url"@)))),
            )
        }),
{
    reveal_strlit("kind");
    reveal_strlit("id");
    reveal_strlit("title");
    reveal_strlit("state");
    reveal_strlit("assignee");
    reveal_strlit("occurred_at");
    reveal_strlit("url");
    assert("kind"@.len() == 4);
    assert("id"@.len() == 2);
    assert("title"@.len() == 5);
    assert("state"@.len() == 5);
    assert("assignee"@.len() == 8);
    assert("occurred_at"@.len() == 11);
    assert("url"@.len() == 3);
    assert("title"@[0] == 't');
    assert("state"@[0] == 's');
}

/// The item made of an issue that is written with given texts has these texts, whatever else the
/// issue, its state and its assignee say.
pub proof fn law_written_issue_reads_back(
    identifier: Seq<char>,
    title: Seq<char>,
    url: Seq<char>,
    updated: Seq<char>,
    state: Seq<char>,
    assignee: Seq<char>,
    more: Map<Seq<char>, JsonView>,
    more_state: Map<Seq<char>, JsonView>,
    more_assignee: Map<Seq<char>, JsonView>,
)
    ensures
        ({
            let node = JsonView::Object(
                more.insert("identifier"@, JsonView::Str(identifier)).insert(
                    "title"@,
                    JsonView::Str(title),
                ).insert("url"@, JsonView::Str(url)).insert(
                    "updatedAt"@,
                    JsonView::Str(updated),
                ).insert(
                    "state"@,
                    JsonView::Object(more_state.insert("name"@, JsonView::Str(state))),
                ).insert(
                    "assignee"@,
                    JsonView::Object(more_assignee.insert("name"@, JsonView::Str(assignee))),
                ),
            );
            let item = issue_json(node);
            &&& field(item, "kind"@) == Some(JsonView::Str("linear"@))
            &&& field(item, "id"@) == Some(JsonView::Str(identifier))
            &&& field(item, "title"@) == Some(JsonView::Str(title))
            &&& field(item, "url"@) == Some(JsonView::Str(url))
            &&& field(item, "occurred_at"@) == Some(JsonView::Str(updated))
            &&& field(item, "state"@) == Some(JsonView::Str(state))
            &&& field(item, "assignee"@) == Some(JsonView::Str(assignee))
        }),
{
    let node = JsonView::Object(
        more.insert("identifier"@, JsonView::Str(identifier)).insert(
            "title"@,
            JsonView::Str(title),
        ).insert("url"@, JsonView::Str(url)).insert("updatedAt"@, JsonView::Str(updated)).insert(
            "state"@,
            JsonView::Object(more_state.insert("name"@, JsonView::Str(state))),
        ).insert(
            "assignee"@,
            JsonView::Object(more_assignee.insert("name"@, JsonView::Str(assignee))),
        ),
    );
    law_issue_says_what_node_says(node);
    reveal_strlit("identifier");
    reveal_strlit("title");
    reveal_strlit("url");
    reveal_strlit("updatedAt");
    reveal_strlit("state");
    reveal_strlit("assignee");
    assert("identifier"@.len() == 10);
    assert("title"@.len() == 5);
    assert("url"@.len() == 3);
    assert("updatedAt"@.len() == 9);
    assert("state"@.len() == 5);
    assert("assignee"@.len() == 8);
    assert("title"@[0] == 't');
    assert("state"@[0] == 's');
}

/// The issues of a reply are those that it lists under its team, all of them and in their order;
/// without a reply there are none.
pub proof fn law_reply_lists_issues(
    nodes: Seq<JsonView>,
    a: Map<Seq<char>, JsonView>,
    b: Map<Seq<char>, JsonView>,
    c: Map<Seq<char>, JsonView>,
    d: Map<Seq<char>, JsonView>,
    i: int,
)
    ensures
        ({
            let list = JsonView::Object(d.insert("nodes"@, JsonView::Array(nodes)));
            let team = JsonView::Object(c.insert("issues"@, list));
            let data = JsonView::Object(b.insert("team"@, team));
            let items = issues(Some(JsonView::Object(a.insert("data"@, data))));
            &&& items.len() == nodes.len()
            &&& 0 <= i < nodes.len() ==> items[i] == issue_json(nodes[i])
        }),
        issues(None).len() == 0,
{
}

/// An item made of a pull request says what the pull request says: its number behind the
/// repository, its title, the login of its author, when it was closed or else last changed, its
/// page, and at most the first eight hundred characters of its body.
pub proof fn law_pull_request_says_what_item_says(repo: Seq<char>, pr: JsonView)
    ensures
        ({
            let item = merged_pr_json(repo, pr);
            let number = match i64_value(field(pr, "number"@)) {
                Some(n) => decimal(n as int),
                None => decimal(0),
            };
            let body = or_empty(text_value(field(pr, "body"@)));
            &&& field(item, "kind"@) == Some(JsonView::Str("pr"@))
            &&& field(item, "repo"@) == Some(JsonView::Str(repo))
            &&& field(item, "id"@) == Some(JsonView::Str(repo + "#"@ + number))
            &&& field(item, "title"@) == Some(
                JsonView::Str(or_empty(text_value(field(pr, "title"@)))),
            )
            &&& field(item, "author"@) == Some(
                JsonView::Str(or_empty(text_value(field_of(field(pr, "user"@), "login"@)))),
            )
            &&& text_value(field(pr, "closed_at"@)) matches Some(closed) ==> field(
                item,
                "occurred_at"@,
            ) == Some(JsonView::Str(closed))
            &&& text_value(field(pr, "closed_at"@)) is None ==> field(item, "occurred_at"@) == Some(
                JsonView::Str(or_empty(text_value(field(pr, "updated_at"@)))),
            )
            &&& field(item, "url"@) == Some(
                JsonView::Str("https://github.com/"@ + repo + "/pull/"@ + number),
            )
            &&& body.len() <= 800 ==> field(item, "body"@) == Some(JsonView::Str(body))
            &&& body.len() > 800 ==> field(item, "body"@) == Some(JsonView::Str(body.take(800)))
        }),
{
    reveal_strlit("kind");
    reveal_strlit("repo");
    reveal_strlit("id");
    reveal_strlit("title");
    reveal_strlit("author");
    reveal_strlit("occurred_at");
    reveal_strlit("url");
    reveal_strlit("body");
    assert("kind"@.len() == 4);
    assert("repo"@.len() == 4);
    assert("id"@.len() == 2);
    assert("title"@.len() == 5);
    assert("author"@.len() == 6);
    assert("occurred_at"@.len() == 11);
    assert("url"@.len() == 3);
    assert("body"@.len() == 4);
    assert("kind"@[0] == 'k');
    assert("repo"@[0] == 'r');
    assert("body"@[0] == 'b');
}

/// Of a reply about a repository the first pull requests are reported, up to the limit, in their
/// order; without a reply there are none. Those of several repositories follow each other.
pub proof fn law_pull_requests_are_listed(
    repo: Seq<char>,
    body: JsonView,
    limit: nat,
    i: int,
    a: Seq<Reply>,
    b: Seq<Reply>,
)
    ensures
        ({
            let listed = items_of(field(body, "items"@));
            let items = prs_in(repo, Some(body), limit);
            &&& items.len() == if listed.len() <= limit {
                listed.len()
            } else {
                limit
            }
            &&& 0 <= i < items.len() ==> items[i] == merged_pr_json(repo, listed[i])
        }),
        prs_in(repo, None, limit).len() == 0,
        merged_prs(a + b, limit) == merged_prs(a, limit) + merged_prs(b, limit),
        a.len() == 1 ==> merged_prs(a, limit) == prs_in(a[0].name@, body_view(a[0].body), limit),
        merged_prs(Seq::empty(), limit).len() == 0,
    decreases b.len(),
{
    if a.len() == 1 {
        assert(a.drop_last() =~= Seq::empty());
        assert(merged_prs(a.drop_last(), limit) =~= Seq::empty());
        assert(merged_prs(a, limit) =~= prs_in(a[0].name@, body_view(a[0].body), limit));
    }
    if b.len() == 0 {
        assert(a + b =~= a);
        assert(merged_prs(a + b, limit) =~= merged_prs(a, limit) + merged_prs(b, limit));
    } else {
        assert((a + b).drop_last() =~= a + b.drop_last());
        law_pull_requests_are_listed(repo, body, limit, i, a, b.drop_last());
        assert(merged_prs(a + b, limit) =~= merged_prs(a, limit) + merged_prs(b, limit));
    }
}

/// An item made of a release says what the release says: its tag behind the repository, its name or
/// else its tag, when it was published, its page, and at most the first eight hundred characters of
/// its notes.
pub proof fn law_release_says_what_item_says(repo: Seq<char>, release: JsonView)
    ensures
        ({
            let item = release_json(repo, release);
            let tag = or_empty(text_value(field(release, "tag_name"@)));
            let body = or_empty(text_value(field(release, "body"@)));
            &&& field(item, "kind"@) == Some(JsonView::Str("release"@))
            &&& field(item, "repo"@) == Some(JsonView::Str(repo))
            &&& field(item, "id"@) == Some(JsonView::Str(repo + "@"@ + tag))
            &&& text_value(field(release, "name"@)) matches Some(name) ==> field(item, "title"@)
                == Some(JsonView::Str(name))
            &&& text_value(field(release, "name"@)) is None ==> field(item, "title"@) == Some(
                JsonView::Str(tag),
            )
            &&& field(item, "occurred_at"@) == Some(
                JsonView::Str(or_empty(text_value(field(release, "published_at"@)))),
            )
            &&& field(item, "url"@) == Some(
                JsonView::Str(or_empty(text_value(field(release, "html_url"@)))),
            )
            &&& body.len() <= 800 ==> field(item, "body"@) == Some(JsonView::Str(body))
            &&& body.len() > 800 ==> field(item, "body"@) == Some(JsonView::Str(body.take(800)))
        }),
{
    reveal_strlit("kind");
    reveal_strlit("repo");
    reveal_strlit("id");
    reveal_strlit("title");
    reveal_strlit("occurred_at");
    reveal_strlit("url");
    reveal_strlit("body");
    assert("kind"@.len() == 4);
    assert("repo"@.len() == 4);
    assert("id"@.len() == 2);
    assert("title"@.len() == 5);
    assert("occurred_at"@.len() == 11);
    assert("url"@.len() == 3);
    assert("body"@.len() == 4);
    assert("kind"@[0] == 'k');
    assert("repo"@[0] == 'r');
    assert("body"@[0] == 'b');
}

/// A release is reported exactly where it is no draft and was published, and not before `start`: by
/// the point in time that is stated for it, or by its text where that states none. Releases are
/// reported in their order, and those of several repositories follow each other.
pub proof fn law_releases_are_listed(
    repo: Seq<char>,
    release: JsonView,
    start: Timestamp,
    items: Seq<JsonView>,
    more: Seq<JsonView>,
    a: Seq<Reply>,
    b: Seq<Reply>,
)
    ensures
        ({
            let published = or_empty(text_value(field(release, "published_at"@)));
            let recent = match stated_moment(Some(published)) {
                Some(moment) => start.unix_nanos() <= moment.unix_nanos(),
                None => !precedes(published, iso_text(Some(start))),
            };
            let draft = field(release, "draft"@) == Some(JsonView::Bool(true));
            releases_in(repo, seq![release], start) == if !draft && published.len() > 0 && recent {
                seq![release_json(repo, release)]
            } else {
                Seq::empty()
            }
        }),
        releases_in(repo, items + more, start) == releases_in(repo, items, start) + releases_in(
            repo,
            more,
            start,
        ),
        releases_in(repo, Seq::empty(), start).len() == 0,
        releases(a + b, start) == releases(a, start) + releases(b, start),
        a.len() == 1 ==> releases(a, start) == match a[0].body {
            Some(body) => releases_in(a[0].name@, items_of(Some(body@)), start),
            None => Seq::empty(),
        },
        releases(Seq::empty(), start).len() == 0,
{
    let one = seq![release];
    assert(one.drop_last() =~= Seq::empty());
    assert(releases_in(repo, one.drop_last(), start) =~= Seq::empty());
    assert(seq![release_json(repo, release)] =~= Seq::empty().push(release_json(repo, release)));
    lemma_releases_in_concat(repo, items, more, start);
    lemma_releases_concat(a, b, start);
    if a.len() == 1 {
        assert(a.drop_last() =~= Seq::empty());
        assert(releases(a.drop_last(), start) =~= Seq::empty());
        assert(releases_in(a[0].name@, Seq::empty(), start) =~= Seq::empty());
        assert(releases(a, start) =~= releases_in(
            a[0].name@,
            items_of(body_view(a[0].body)),
            start,
        ));
    }
}

proof fn lemma_releases_in_concat(
    repo: Seq<char>,
    items: Seq<JsonView>,
    more: Seq<JsonView>,
    start: Timestamp,
)
    ensures
        releases_in(repo, items + more, start) == releases_in(repo, items, start) + releases_in(
            repo,
            more,
            start,
        ),
    decreases more.len(),
{
    if more.len() == 0 {
        assert(items + more =~= items);
    } else {
        assert((items + more).drop_last() =~= items + more.drop_last());
        lemma_releases_in_concat(repo, items, more.drop_last(), start);
    }
    assert(releases_in(repo, items + more, start) =~= releases_in(repo, items, start)
        + releases_in(repo, more, start));
}

proof fn lemma_releases_concat(a: Seq<Reply>, b: Seq<Reply>, start: Timestamp)
    ensures
        releases(a + b, start) == releases(a, start) + releases(b, start),
    decreases b.len(),
{
    if b.len() == 0 {
        assert(a + b =~= a);
    } else {
        assert((a + b).drop_last() =~= a + b.drop_last());
        lemma_releases_concat(a, b.drop_last(), start);
    }
    assert(releases(a + b, start) =~= releases(a, start) + releases(b, start));
}

/// An item made of a message says what the message says: its stamp behind the channel, at most the
/// first hundred and sixty characters of its text as its title and the first eight hundred as its
/// body, and when it was sent.
pub proof fn law_message_says_what_item_says(channel: Seq<char>, message: JsonView)
    ensures
        ({
            let item = message_json(channel, message);
            let text = or_empty(text_value(field(message, "text"@)));
            let stamp = or_empty(text_value(field(message, "ts"@)));
            &&& field(item, "kind"@) == Some(JsonView::Str("slack"@))
            &&& field(item, "channel_id"@) == Some(JsonView::Str(channel))
            &&& field(item, "id"@) == Some(JsonView::Str("slack:"@ + channel + ":"@ + stamp))
            &&& text.len() <= 160 ==> field(item, "title"@) == Some(JsonView::Str(text))
            &&& text.len() > 160 ==> field(item, "title"@) == Some(JsonView::Str(text.take(160)))
            &&& text.len() <= 800 ==> field(item, "body"@) == Some(JsonView::Str(text))
            &&& text.len() > 800 ==> field(item, "body"@) == Some(JsonView::Str(text.take(800)))
            &&& field(item, "url"@) == Some(JsonView::Str(Seq::empty()))
            &&& field(item, "occurred_at"@) == Some(JsonView::Str(message_time(stamp)))
        }),
{
    reveal_strlit("kind");
    reveal_strlit("channel_id");
    reveal_strlit("id");
    reveal_strlit("title");
    reveal_strlit("occurred_at");
    reveal_strlit("url");
    reveal_strlit("body");
    assert("kind"@.len() == 4);
    assert("channel_id"@.len() == 10);
    assert("id"@.len() == 2);
    assert("title"@.len() == 5);
    assert("occurred_at"@.len() == 11);
    assert("url"@.len() == 3);
    assert("body"@.len() == 4);
    assert("kind"@[0] == 'k');
    assert("body"@[0] == 'b');
    reveal_strlit("");
    assert(""@ =~= Seq::empty());
}

/// A message with a stamp of whole seconds, a full stop and whatever follows was sent at these
/// seconds after 1970 in universal time; a stamp of no such form, or of a time that has no date,
/// gives no time.
pub proof fn law_stamp_is_seconds(seconds: i64, rest: Seq<char>, other: Seq<char>)
    ensures
        ({
            let stamp = decimal(seconds as int) + seq!['.'] + rest;
            let moment = Timestamp {
                local_nanos: (seconds * 1_000_000_000) as i128,
                offset_seconds: 0,
            };
            &&& FIRST <= seconds * 1_000_000_000 <= LAST ==> message_time(stamp) == iso_text(
                Some(moment),
            ) && message_time(decimal(seconds as int)) == iso_text(Some(moment))
            &&& !(FIRST <= seconds * 1_000_000_000 <= LAST) ==> message_time(stamp).len() == 0
        }),
        !other.contains('.') && decimal_i64(other) is None ==> message_time(
            other + seq!['.'] + rest,
        ).len() == 0 && message_time(other).len() == 0,
{
    let digits = decimal(seconds as int);
    law_decimal_round_trip(seconds);
    lemma_decimal_has_no_stop(seconds as int);
    law_parts_around(digits, '.', rest);
    if !other.contains('.') {
        law_parts_around(other, '.', rest);
    }
}

proof fn lemma_decimal_has_no_stop(n: int)
    ensures
        !decimal(n).contains('.'),
{
    let size: nat = if n < 0 {
        (-n) as nat
    } else {
        n as nat
    };
    lemma_digits_round_trip(size);
    let s = decimal(n);
    assert forall|i: int| 0 <= i < s.len() implies s[i] != '.' by {
        if n < 0 {
            if i > 0 {
                assert(digits(size)[i - 1] == s[i]);
            }
        } else {
            assert(digits(size)[i] == s[i]);
        }
    }
}

/// A message is reported exactly where it is no notice of the service and its text is not blank.
/// Messages are reported in their order, out of the first items of a reply that says it is in order,
/// and those of several channels follow each other.
pub proof fn law_messages_are_listed(
    channel: Seq<char>,
    message: JsonView,
    items: Seq<JsonView>,
    more: Seq<JsonView>,
    body: JsonView,
    limit: nat,
    a: Seq<Reply>,
    b: Seq<Reply>,
)
    ensures
        messages_in(channel, seq![message]) == if text_value(field(message, "subtype"@)) is None
            && !blank(or_empty(text_value(field(message, "text"@)))) {
            seq![message_json(channel, message)]
        } else {
            Seq::empty()
        },
        messages_in(channel, items + more) == messages_in(channel, items) + messages_in(
            channel,
            more,
        ),
        messages_in(channel, Seq::empty()).len() == 0,
        field(body, "ok"@) == Some(JsonView::Bool(true)) ==> {
            let listed = items_of(field(body, "messages"@));
            history_of(Some(body), limit) == if listed.len() <= limit {
                listed
            } else {
                listed.take(limit as int)
            }
        },
        field(body, "ok"@) != Some(JsonView::Bool(true)) ==> history_of(Some(body), limit).len()
            == 0,
        history_of(None, limit).len() == 0,
        messages(a + b, limit) == messages(a, limit) + messages(b, limit),
        a.len() == 1 ==> messages(a, limit) == messages_in(
            a[0].name@,
            history_of(body_view(a[0].body), limit),
        ),
        messages(Seq::empty(), limit).len() == 0,
{
    let one = seq![message];
    law_trimmed_ends(or_empty(text_value(field(message, "text"@))));
    assert(one.drop_last() =~= Seq::empty());
    assert(messages_in(channel, one.drop_last()) =~= Seq::empty());
    assert(seq![message_json(channel, message)] =~= Seq::empty().push(
        message_json(channel, message),
    ));
    lemma_messages_in_concat(channel, items, more);
    lemma_messages_concat(a, b, limit);
    if a.len() == 1 {
        assert(a.drop_last() =~= Seq::empty());
        assert(messages(a.drop_last(), limit) =~= Seq::empty());
        assert(messages(a, limit) =~= messages_in(
            a[0].name@,
            history_of(body_view(a[0].body), limit),
        ));
    }
}

proof fn lemma_messages_in_concat(channel: Seq<char>, items: Seq<JsonView>, more: Seq<JsonView>)
    ensures
        messages_in(channel, items + more) == messages_in(channel, items) + messages_in(
            channel,
            more,
        ),
    decreases more.len(),
{
    if more.len() == 0 {
        assert(items + more =~= items);
    } else {
        assert((items + more).drop_last() =~= items + more.drop_last());
        lemma_messages_in_concat(channel, items, more.drop_last());
    }
    assert(messages_in(channel, items + more) =~= messages_in(channel, items) + messages_in(
        channel,
        more,
    ));
}

proof fn lemma_messages_concat(a: Seq<Reply>, b: Seq<Reply>, limit: nat)
    ensures
        messages(a + b, limit) == messages(a, limit) + messages(b, limit),
    decreases b.len(),
{
    if b.len() == 0 {
        assert(a + b =~= a);
    } else {
        assert((a + b).drop_last() =~= a + b.drop_last());
        lemma_messages_concat(a, b.drop_last(), limit);
    }
    assert(messages(a + b, limit) =~= messages(a, limit) + messages(b, limit));
}

/// What the services are asked for. The address for pull requests holds, encoded, the search for
/// those of the repository that were merged since the start; that for releases names the repository;
/// that for messages holds, encoded, the channel and the second to start from; and the request for
/// issues names the team and the time to start from.
pub proof fn law_services_are_asked(
    repo: Seq<char>,
    since: Seq<char>,
    channel: Seq<char>,
    oldest: int,
    team: Seq<char>,
)
    ensures
        ({
            let asked = "repo:"@ + repo + " is:pr is:merged merged:>="@ + since;
            let start = "https://api.github.com/search/issues?q="@;
            let end = "&per_page=50&sort=created&order=desc"@;
            let address = merged_prs_address(repo, since);
            &&& start.is_prefix_of(address)
            &&& end.is_suffix_of(address)
            &&& decoded(address.subrange(start.len() as int, address.len() - end.len()))
                == vstd::utf8::encode_utf8(asked)
        }),
        releases_address(repo) == "https://api.github.com/repos/"@ + repo
            + "/releases?per_page=20"@,
        ({
            let start = "https://slack.com/api/conversations.history?channel="@;
            let middle = "&oldest="@;
            let end = "&limit=60"@;
            slack_address(channel, oldest) == start + query_value(channel) + middle + query_value(
                decimal(oldest),
            ) + end
        }),
        decoded(query_value(channel)) == vstd::utf8::encode_utf8(channel),
        ({
            let r = linear_request_json(team, since);
            &&& field_of(field(r, "variables"@), "teamId"@) == Some(JsonView::Str(team))
            &&& field_of(field(r, "variables"@), "since"@) == Some(JsonView::Str(since))
            &&& field(r, "query"@) == Some(
                JsonView::Str(
                    "query($teamId:String!,$since:DateTimeOrDuration!){ team(id:$teamId){ issues(filter:{updatedAt:{gt:$since}}, first:50, orderBy:updatedAt){ nodes{ identifier title url updatedAt state{name type} assignee{name} } } } }"@,
                ),
            )
        }),
{
    let asked = "repo:"@ + repo + " is:pr is:merged merged:>="@ + since;
    let start = "https://api.github.com/search/issues?q="@;
    let end = "&per_page=50&sort=created&order=desc"@;
    let address = merged_prs_address(repo, since);
    let middle = query_value(asked);
    assert(address =~= start + middle + end);
    assert(address.subrange(0, start.len() as int) =~= start);
    assert(address.subrange(address.len() - end.len(), address.len() as int) =~= end);
    assert(address.subrange(start.len() as int, address.len() - end.len()) =~= middle);
    law_query_value_round_trip(vstd::utf8::encode_utf8(asked));
    law_query_value_round_trip(vstd::utf8::encode_utf8(channel));
    reveal_strlit("query");
    reveal_strlit("variables");
    reveal_strlit("teamId");
    reveal_strlit("since");
    assert("query"@.len() == 5);
    assert("variables"@.len() == 9);
    assert("teamId"@.len() == 6);
    assert("since"@.len() == 5);
    assert("query"@[0] == 'q');
    assert("since"@[0] == 's');
}

/// Values and bodies that may be missing, by what they stand for.
pub proof fn law_missing_values(json: Json, name: Seq<char>)
    ensures
        body_view(Some(json)) == Some(json@),
        body_view(None) is None,
        value_view(Some(&json)) == Some(json@),
        value_view(None) is None,
        field_of(Some(json@), name) == field(json@, name),
        field_of(None, name) is None,
{
}

} // verus!
