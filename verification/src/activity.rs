//! The feed of what happened lately, gathered over all live sources.
use crate::clock::{iso, iso_text, parse_moment, stated_moment, Timestamp};
use crate::json::{
    append, array_view, field, items_of, lemma_array_view, put, put_text, string_array, string_items,
    text_at, text_value, Json, JsonView,
};
use crate::live::{
    body_view, fetch_live_linear, fetch_live_merged_prs, fetch_live_releases, fetch_live_slack,
    history_of, issue_json, issues, merged_pr_json, merged_prs, message_json, messages, messages_in,
    release_json, releases, releases_in, Reply, PER_CHANNEL, PER_REPO,
};
use crate::order::{
    comes_before, law_precedes_irreflexive, law_precedes_total, law_precedes_transitive, precedes,
    sorted_distinct,
};
use crate::tally::{
    labels_of, law_tally_adds_up, law_tally_tells_counts, tally, tally_of, tells_count, total,
};
use crate::text::{same, texts};
use vstd::prelude::*;
use vstd::string::*;

verus! {

/// Whether a source is asked for: it is named, or none is.
pub open spec fn wants(sources: Seq<Seq<char>>, name: Seq<char>) -> bool {
    sources.len() == 0 || sources.contains(name)
}

/// Which services there are credentials for.
#[derive(Clone, Copy, Debug, PartialEq, Eq, Structural)]
pub struct Credentials {
    pub github: bool,
    pub linear: bool,
    pub slack: bool,
}

/// What is to be fetched, and what is asked for but cannot be.
#[derive(Debug, PartialEq, Eq)]
pub struct LivePlan {
    pub merged_prs: bool,
    pub releases: bool,
    pub linear: bool,
    pub slack: bool,
    pub errors: Vec<String>,
}

/// What is to be fetched, and what is asked for but cannot be.
pub struct LivePlanView {
    pub merged_prs: bool,
    pub releases: bool,
    pub linear: bool,
    pub slack: bool,
    pub errors: Seq<Seq<char>>,
}

impl View for LivePlan {
    type V = LivePlanView;

    open spec fn view(&self) -> LivePlanView {
        LivePlanView {
            merged_prs: self.merged_prs,
            releases: self.releases,
            linear: self.linear,
            slack: self.slack,
            errors: texts(self.errors@),
        }
    }
}

/// Whether pull requests are asked for.
pub open spec fn wants_prs(sources: Seq<Seq<char>>) -> bool {
    wants(sources, "github"@) || wants(sources, "pr"@)
}

/// Whether releases are asked for.
pub open spec fn wants_releases(sources: Seq<Seq<char>>) -> bool {
    wants(sources, "github"@) || wants(sources, "release"@)
}

/// `message`, where it applies.
pub open spec fn note_if(applies: bool, message: Seq<char>) -> Seq<Seq<char>> {
    if applies {
        seq![message]
    } else {
        Seq::empty()
    }
}

/// What is fetched for `sources`: what is asked for and has credentials. What is asked for and
/// has none is an error.
pub open spec fn plan_of(sources: Seq<Seq<char>>, held: Credentials) -> LivePlanView {
    LivePlanView {
        merged_prs: wants_prs(sources) && held.github,
        releases: wants_releases(sources) && held.github,
        linear: wants(sources, "linear"@) && held.linear,
        slack: wants(sources, "slack"@) && held.slack,
        errors: note_if(
            (wants_prs(sources) || wants_releases(sources)) && !held.github,
            "github: no CODE_REVIEW_GITHUB_TOKEN/GITHUB_GATEWAY_TOKEN"@,
        ) + note_if(wants(sources, "linear"@) && !held.linear, "linear: no LINEAR_API_KEY"@)
            + note_if(wants(sources, "slack"@) && !held.slack, "slack: no SLACK_BOT_TOKEN"@),
    }
}

/// Whether a source is asked for.
fn is_wanted(sources: &Vec<String>, name: &str) -> (r: bool)
    ensures
        r == wants(texts(sources@), name@),
{
    if sources.len() == 0 {
        return true;
    }
    let mut i: usize = 0;
    while i < sources.len()
        invariant
            i <= sources@.len(),
            forall|j: int| 0 <= j < i ==> texts(sources@)[j] != name@,
        decreases sources@.len() - i,
    {
        if same(sources[i].as_str(), name) {
            proof {
                assert(texts(sources@)[i as int] == name@);
            }
            return true;
        }
        proof {
            assert(texts(sources@)[i as int] == sources@[i as int]@);
        }
        i += 1;
    }
    false
}

/// Adds a message to a list where it applies.
fn note(list: &mut Vec<String>, applies: bool, message: &str)
    ensures
        texts(final(list)@) == texts(old(list)@) + note_if(applies, message@),
{
    let ghost before = list@;
    if applies {
        list.push(message.to_owned());
    }
    proof {
        assert(texts(list@) =~= texts(before) + note_if(applies, message@));
    }
}

/// What is to be fetched for `sources`, of which an empty list stands for all, with the
/// credentials at hand.
pub fn live_plan(sources: &Vec<String>, held: Credentials) -> (r: LivePlan)
    ensures
        r@ == plan_of(texts(sources@), held),
{
    let github = is_wanted(sources, "github");
    let prs: bool = github || is_wanted(sources, "pr");
    let rels: bool = github || is_wanted(sources, "release");
    let linear = is_wanted(sources, "linear");
    let slack = is_wanted(sources, "slack");
    let mut errors: Vec<String> = Vec::new();
    proof {
        assert(texts(errors@) =~= Seq::empty());
    }
    note(
        &mut errors,
        (prs || rels) && !held.github,
        "github: no CODE_REVIEW_GITHUB_TOKEN/GITHUB_GATEWAY_TOKEN",
    );
    note(&mut errors, linear && !held.linear, "linear: no LINEAR_API_KEY");
    note(&mut errors, slack && !held.slack, "slack: no SLACK_BOT_TOKEN");
    proof {
        assert(texts(errors@) =~= plan_of(texts(sources@), held).errors);
    }
    LivePlan {
        merged_prs: prs && held.github,
        releases: rels && held.github,
        linear: linear && held.linear,
        slack: slack && held.slack,
        errors,
    }
}

/// A source that is asked for is fetched where there are credentials for it, and is else named as
/// an error; one that is not asked for is neither.
pub proof fn law_wanted_is_fetched_or_reported(sources: Seq<Seq<char>>, held: Credentials)
    ensures
        ({
            let plan = plan_of(sources, held);
            let no_github = plan.errors.contains(
                "github: no CODE_REVIEW_GITHUB_TOKEN/GITHUB_GATEWAY_TOKEN"@,
            );
            let no_linear = plan.errors.contains("linear: no LINEAR_API_KEY"@);
            let no_slack = plan.errors.contains("slack: no SLACK_BOT_TOKEN"@);
            &&& wants_prs(sources) ==> plan.merged_prs != no_github
            &&& wants_releases(sources) ==> plan.releases != no_github
            &&& wants(sources, "linear"@) ==> plan.linear != no_linear
            &&& wants(sources, "slack"@) ==> plan.slack != no_slack
            &&& !wants_prs(sources) ==> !plan.merged_prs
            &&& !wants_releases(sources) ==> !plan.releases
            &&& !wants_prs(sources) && !wants_releases(sources) ==> !no_github
            &&& !wants(sources, "linear"@) ==> !plan.linear && !no_linear
            &&& !wants(sources, "slack"@) ==> !plan.slack && !no_slack
        }),
{
    let plan = plan_of(sources, held);
    let no_github = "github: no CODE_REVIEW_GITHUB_TOKEN/GITHUB_GATEWAY_TOKEN"@;
    let no_linear = "linear: no LINEAR_API_KEY"@;
    let no_slack = "slack: no SLACK_BOT_TOKEN"@;
    reveal_strlit("github: no CODE_REVIEW_GITHUB_TOKEN/GITHUB_GATEWAY_TOKEN");
    reveal_strlit("linear: no LINEAR_API_KEY");
    reveal_strlit("slack: no SLACK_BOT_TOKEN");
    assert(no_github[0] == 'g');
    assert(no_linear[0] == 'l');
    assert(no_slack[0] == 's');
    let a = note_if((wants_prs(sources) || wants_releases(sources)) && !held.github, no_github);
    let b = note_if(wants(sources, "linear"@) && !held.linear, no_linear);
    let c = note_if(wants(sources, "slack"@) && !held.slack, no_slack);
    assert(plan.errors == a + b + c);
    if a.len() > 0 {
        assert(plan.errors[0] == no_github);
    }
    if b.len() > 0 {
        assert(plan.errors[a.len() as int] == no_linear);
    }
    if c.len() > 0 {
        assert(plan.errors[(a.len() + b.len()) as int] == no_slack);
    }
}

// The order of the feed.

/// When an item happened, as a text.
pub open spec fn time_of(item: JsonView) -> Seq<char> {
    text_at(item, "occurred_at"@)
}

/// The point in time at which an item happened, where its text states one.
pub open spec fn moment_of(item: JsonView) -> Option<Timestamp> {
    stated_moment(Some(time_of(item)))
}

/// Whether an item happened before the end of the window, where one is stated. An item whose time
/// cannot be read is not left out.
pub open spec fn happened_before(item: JsonView, end: Option<Timestamp>) -> bool {
    match (end, moment_of(item)) {
        (Some(end), Some(moment)) => moment.unix_nanos() < end.unix_nanos(),
        _ => true,
    }
}

/// The items that happened before the end of the window.
pub open spec fn before_end(items: Seq<JsonView>, end: Option<Timestamp>) -> Seq<JsonView>
    decreases items.len(),
{
    if items.len() == 0 {
        Seq::empty()
    } else if happened_before(items.last(), end) {
        before_end(items.drop_last(), end).push(items.last())
    } else {
        before_end(items.drop_last(), end)
    }
}

/// Whether a point in time, where it can be told, is before another one that may be stated.
pub fn is_before(moment: Option<Timestamp>, end: Option<Timestamp>) -> (r: bool)
    requires
        moment matches Some(t) ==> t.valid(),
        end matches Some(t) ==> t.valid(),
    ensures
        r == match (end, moment) {
            (Some(end), Some(moment)) => moment.unix_nanos() < end.unix_nanos(),
            _ => true,
        },
{
    match (end, moment) {
        (Some(end), Some(moment)) => moment.unix_timestamp_nanos() < end.unix_timestamp_nanos(),
        _ => true,
    }
}

/// The items that happened before the end of the window.
pub fn cut_at_end(items: Vec<Json>, end: Option<Timestamp>) -> (r: Vec<Json>)
    requires
        end matches Some(t) ==> t.valid(),
    ensures
        array_view(r@) == before_end(array_view(items@), end),
{
    let ghost all = array_view(items@);
    let mut out: Vec<Json> = Vec::new();
    let mut i: usize = 0;
    proof {
        lemma_array_view(items@);
    }
    while i < items.len()
        invariant
            end matches Some(t) ==> t.valid(),
            i <= items@.len(),
            all.len() == items@.len(),
            forall|j: int| 0 <= j < items@.len() ==> #[trigger] all[j] == items@[j]@,
            array_view(out@) == before_end(all.take(i as int), end),
        decreases items@.len() - i,
    {
        let stamp = items[i].get_text("occurred_at");
        if is_before(parse_moment(Some(stamp.as_str())), end) {
            append(&mut out, items[i].duplicate());
        }
        proof {
            assert(all[i as int] == items@[i as int]@);
            assert(all.take(i + 1).drop_last() =~= all.take(i as int));
        }
        i += 1;
    }
    proof {
        assert(all.take(i as int) =~= all);
    }
    out
}

/// Without a stated end nothing is left out.
pub proof fn law_feed_without_end_is_whole(items: Seq<JsonView>)
    ensures
        before_end(items, None) == items,
    decreases items.len(),
{
    if items.len() > 0 {
        law_feed_without_end_is_whole(items.drop_last());
        assert(items.drop_last().push(items.last()) =~= items);
    } else {
        assert(before_end(items, None) =~= items);
    }
}

/// The items before the end of the window are among the items, and happened before it.
pub proof fn law_feed_ends_at_end(items: Seq<JsonView>, end: Option<Timestamp>, i: int)
    requires
        0 <= i < before_end(items, end).len(),
    ensures
        items.contains(before_end(items, end)[i]),
        happened_before(before_end(items, end)[i], end),
    decreases items.len(),
{
    let rest = before_end(items.drop_last(), end);
    if i < rest.len() {
        law_feed_ends_at_end(items.drop_last(), end, i);
        let k = items.drop_last().index_of(rest[i]);
        assert(items[k] == rest[i]);
    } else {
        assert(items[items.len() - 1] == before_end(items, end)[i]);
    }
}

/// Whether something at a time comes before something at another: where both texts state a point
/// in time, by these and, at one point, by the texts; by the texts alone where one of them states
/// none.
pub open spec fn time_precedes(
    a: Option<Timestamp>,
    a_text: Seq<char>,
    b: Option<Timestamp>,
    b_text: Seq<char>,
) -> bool {
    match (a, b) {
        (Some(x), Some(y)) => if x.unix_nanos() == y.unix_nanos() {
            precedes(a_text, b_text)
        } else {
            x.unix_nanos() < y.unix_nanos()
        },
        _ => precedes(a_text, b_text),
    }
}

/// Whether item `a` comes before item `b`, as far as the two of them go.
pub open spec fn earlier(a: JsonView, b: JsonView) -> bool {
    time_precedes(moment_of(a), time_of(a), moment_of(b), time_of(b))
}

/// Whether something at a time comes before something at another.
pub fn is_earlier(
    a: Option<Timestamp>,
    a_text: &str,
    b: Option<Timestamp>,
    b_text: &str,
) -> (r: bool)
    requires
        a matches Some(t) ==> t.valid(),
        b matches Some(t) ==> t.valid(),
    ensures
        r == time_precedes(a, a_text@, b, b_text@),
{
    match (a, b) {
        (Some(x), Some(y)) => {
            let (x, y): (i128, i128) = (x.unix_timestamp_nanos(), y.unix_timestamp_nanos());
            if x == y {
                comes_before(a_text, b_text)
            } else {
                x < y
            }
        },
        _ => comes_before(a_text, b_text),
    }
}

/// `rest` with `item` before the first of its items that it is earlier than.
pub open spec fn placed_by_time(item: JsonView, rest: Seq<JsonView>) -> Seq<JsonView>
    decreases rest.len(),
{
    if rest.len() == 0 || earlier(item, rest[0]) {
        seq![item] + rest
    } else {
        seq![rest[0]] + placed_by_time(item, rest.skip(1))
    }
}

/// `list` with more items in their places, one after the other: those of `items` whose text states
/// a point in time, or else those whose text states none.
pub open spec fn all_placed(items: Seq<JsonView>, dated: bool, list: Seq<JsonView>) -> Seq<JsonView>
    decreases items.len(),
{
    if items.len() == 0 {
        list
    } else {
        let rest = all_placed(items.drop_last(), dated, list);
        if (moment_of(items.last()) is Some) == dated {
            placed_by_time(items.last(), rest)
        } else {
            rest
        }
    }
}

/// The items from oldest to newest: those whose text states a point in time in the order of these,
/// and each of the others before the first item that has a greater text.
pub open spec fn in_time_order(items: Seq<JsonView>) -> Seq<JsonView> {
    all_placed(items, false, all_placed(items, true, Seq::empty()))
}

/// How many items of a list come before the first that `item` is earlier than.
pub open spec fn place_in(item: JsonView, rest: Seq<JsonView>) -> nat
    decreases rest.len(),
{
    if rest.len() == 0 || earlier(item, rest[0]) {
        0
    } else {
        1 + place_in(item, rest.skip(1))
    }
}

proof fn lemma_placed_at(item: JsonView, rest: Seq<JsonView>)
    ensures
        place_in(item, rest) <= rest.len(),
        placed_by_time(item, rest) == rest.insert(place_in(item, rest) as int, item),
        forall|j: int| 0 <= j < place_in(item, rest) ==> !earlier(item, #[trigger] rest[j]),
        place_in(item, rest) < rest.len() ==> earlier(item, rest[place_in(item, rest) as int]),
    decreases rest.len(),
{
    let n = place_in(item, rest);
    if rest.len() == 0 || earlier(item, rest[0]) {
        assert(placed_by_time(item, rest) =~= rest.insert(0, item));
    } else {
        lemma_placed_at(item, rest.skip(1));
        assert(placed_by_time(item, rest) =~= rest.insert(n as int, item));
        assert forall|j: int| 0 <= j < n implies !earlier(item, #[trigger] rest[j]) by {
            if j > 0 {
                assert(rest.skip(1)[j - 1] == rest[j]);
            }
        }
    }
}

proof fn lemma_place_in(item: JsonView, rest: Seq<JsonView>, n: int)
    requires
        0 <= n <= rest.len(),
        forall|j: int| 0 <= j < n ==> !earlier(item, #[trigger] rest[j]),
        n < rest.len() ==> earlier(item, rest[n]),
    ensures
        place_in(item, rest) == n,
    decreases rest.len(),
{
    if n > 0 {
        assert(!earlier(item, rest[0]));
        assert forall|j: int| 0 <= j < n - 1 implies !earlier(item, #[trigger] rest.skip(1)[j]) by {
            assert(rest.skip(1)[j] == rest[j + 1]);
        }
        lemma_place_in(item, rest.skip(1), n - 1);
    }
}

/// Whether `moments` are the points in time of `items`.
spec fn times_known(items: Seq<Json>, moments: Seq<Option<Timestamp>>) -> bool {
    &&& moments.len() == items.len()
    &&& forall|j: int|
        0 <= j < items.len() ==> #[trigger] moments[j] == moment_of(items[j]@) && (
        moments[j] matches Some(t) ==> t.valid())
}

/// Puts `item` before the first item that it is earlier than. `moments` are the points in time of
/// the items, and `moment` is that of `item`.
fn place_by_time(
    list: &mut Vec<Json>,
    moments: &mut Vec<Option<Timestamp>>,
    item: Json,
    moment: Option<Timestamp>,
)
    requires
        times_known(old(list)@, old(moments)@),
        moment == moment_of(item@),
        moment matches Some(t) ==> t.valid(),
    ensures
        times_known(final(list)@, final(moments)@),
        array_view(final(list)@) == placed_by_time(item@, array_view(old(list)@)),
{
    let ghost all = array_view(list@);
    let ghost new = item@;
    let stamp = item.get_text("occurred_at");
    let mut i: usize = 0;
    proof {
        lemma_array_view(list@);
    }
    while i < list.len() && !is_earlier(
        moment,
        stamp.as_str(),
        moments[i],
        list[i].get_text("occurred_at").as_str(),
    )
        invariant
            i <= list@.len(),
            all == array_view(list@),
            all.len() == list@.len(),
            forall|j: int| 0 <= j < list@.len() ==> #[trigger] all[j] == list@[j]@,
            times_known(list@, moments@),
            stamp@ == time_of(new),
            moment == moment_of(new),
            moment matches Some(t) ==> t.valid(),
            forall|j: int| 0 <= j < i ==> !earlier(new, #[trigger] all[j]),
        ensures
            i < list@.len() ==> earlier(new, all[i as int]),
        decreases list@.len() - i,
    {
        i += 1;
    }
    proof {
        lemma_place_in(new, all, i as int);
        lemma_placed_at(new, all);
    }
    list.insert(i, item);
    moments.insert(i, moment);
    proof {
        lemma_array_view(list@);
        assert(array_view(list@) =~= all.insert(i as int, new));
    }
}

/// Puts more items in their places, one after the other: those of `items` whose text states a point
/// in time, or else those whose text states none. `moments` are the points in time of the list.
fn place_all(
    items: &Vec<Json>,
    dated: bool,
    list: &mut Vec<Json>,
    moments: &mut Vec<Option<Timestamp>>,
)
    requires
        times_known(old(list)@, old(moments)@),
    ensures
        times_known(final(list)@, final(moments)@),
        array_view(final(list)@) == all_placed(
            array_view(items@),
            dated,
            array_view(old(list)@),
        ),
{
    let ghost all = array_view(items@);
    let ghost start = array_view(list@);
    let mut i: usize = 0;
    proof {
        lemma_array_view(items@);
    }
    while i < items.len()
        invariant
            i <= items@.len(),
            all.len() == items@.len(),
            forall|j: int| 0 <= j < items@.len() ==> #[trigger] all[j] == items@[j]@,
            times_known(list@, moments@),
            array_view(list@) == all_placed(all.take(i as int), dated, start),
        decreases items@.len() - i,
    {
        let stamp = items[i].get_text("occurred_at");
        let moment = parse_moment(Some(stamp.as_str()));
        proof {
            assert(all[i as int] == items@[i as int]@);
            assert(all.take(i + 1).drop_last() =~= all.take(i as int));
        }
        if moment.is_some() == dated {
            place_by_time(list, moments, items[i].duplicate(), moment);
        }
        i += 1;
    }
    proof {
        assert(all.take(i as int) =~= all);
    }
}

/// The items from oldest to newest: those whose text states a point in time in the order of these,
/// and each of the others before the first item that has a greater text.
pub fn sort_by_time(items: &Vec<Json>) -> (r: Vec<Json>)
    ensures
        array_view(r@) == in_time_order(array_view(items@)),
{
    let mut out: Vec<Json> = Vec::new();
    let mut moments: Vec<Option<Timestamp>> = Vec::new();
    proof {
        lemma_array_view(out@);
        assert(array_view(out@) =~= Seq::empty());
    }
    place_all(items, true, &mut out, &mut moments);
    place_all(items, false, &mut out, &mut moments);
    out
}

proof fn lemma_text_order(x: Seq<char>, y: Seq<char>, z: Seq<char>)
    ensures
        !precedes(x, x),
        precedes(x, y) ==> !precedes(y, x),
        !precedes(x, y) && !precedes(y, x) ==> x == y,
        !precedes(y, x) && !precedes(z, y) ==> !precedes(z, x),
        precedes(x, y) && !precedes(z, y) ==> precedes(x, z),
{
    law_precedes_irreflexive(x);
    law_precedes_total(x, y);
    law_precedes_total(y, z);
    law_precedes_total(x, z);
    if precedes(x, y) && precedes(y, x) {
        law_precedes_transitive(x, y, x);
    }
    if precedes(x, y) && precedes(y, z) {
        law_precedes_transitive(x, y, z);
        if precedes(z, x) {
            law_precedes_transitive(x, z, x);
        }
    }
    if precedes(z, x) && precedes(x, y) {
        law_precedes_transitive(z, x, y);
    }
}

/// Items whose times can all be read, or none of whose times can, are ordered by time: nothing is
/// earlier than itself; of two items at most one is earlier, and neither only where their texts are
/// the same; and what is not earlier than a second item, which is not earlier than a third, is not
/// earlier than the third.
pub proof fn law_earlier_is_an_order(a: JsonView, b: JsonView, c: JsonView)
    requires
        (moment_of(a) is Some) == (moment_of(b) is Some),
        (moment_of(b) is Some) == (moment_of(c) is Some),
    ensures
        !earlier(a, a),
        earlier(a, b) ==> !earlier(b, a),
        !earlier(a, b) && !earlier(b, a) ==> time_of(a) == time_of(b),
        !earlier(b, a) && !earlier(c, b) ==> !earlier(c, a),
{
    lemma_text_order(time_of(a), time_of(b), time_of(c));
}

/// Whether the items of a list stand in their places: those whose times can be read do not come
/// behind a later one, and the others do not come behind an item with a greater text.
spec fn in_place(list: Seq<JsonView>) -> bool {
    forall|i: int, j: int|
        0 <= i < j < list.len() && (moment_of(list[i]) is Some || moment_of(list[j]) is None)
            ==> !earlier(#[trigger] list[j], #[trigger] list[i])
}

/// Whether the time of each item of a list can be read.
spec fn all_dated(list: Seq<JsonView>) -> bool {
    forall|i: int| 0 <= i < list.len() ==> moment_of(#[trigger] list[i]) is Some
}

/// Whether no item from `from` up to `to` has a time that can be read.
pub open spec fn none_dated(list: Seq<JsonView>, from: int, to: int) -> bool {
    forall|k: int| from <= k < to ==> moment_of(#[trigger] list[k]) is None
}

/// Where the item at `j` is the first from `i` on whose time can be read: whether the item at `i`
/// has a smaller text.
spec fn next_is_greater(list: Seq<JsonView>, i: int, j: int) -> bool {
    none_dated(list, i, j) && moment_of(list[j]) is Some ==> precedes(
        time_of(list[i]),
        time_of(list[j]),
    )
}

/// Whether each item whose time cannot be read has a smaller text than the first item behind it
/// whose time can.
spec fn before_greater(list: Seq<JsonView>) -> bool {
    forall|i: int, j: int| 0 <= i < j < list.len() ==> #[trigger] next_is_greater(list, i, j)
}

proof fn lemma_place_keeps_order(item: JsonView, rest: Seq<JsonView>)
    requires
        in_place(rest),
        moment_of(item) is Some ==> all_dated(rest),
    ensures
        in_place(placed_by_time(item, rest)),
        moment_of(item) is Some ==> all_dated(placed_by_time(item, rest)),
        forall|j: int|
            place_in(item, rest) <= j < rest.len() ==> time_of(#[trigger] rest[j]) != time_of(item),
{
    let n = place_in(item, rest) as int;
    let out = rest.insert(n, item);
    lemma_placed_at(item, rest);
    assert forall|j: int| n <= j < rest.len() && (moment_of(item) is Some || moment_of(
        rest[j],
    ) is None) implies earlier(item, #[trigger] rest[j]) by {
        if j > n {
            let next = rest[n];
            assert(!earlier(rest[j], next));
            lemma_text_order(time_of(item), time_of(next), time_of(rest[j]));
        }
    }
    assert forall|j: int| n <= j < rest.len() implies time_of(#[trigger] rest[j]) != time_of(
        item,
    ) by {
        if time_of(rest[j]) == time_of(item) {
            assert(earlier(item, rest[j]));
            law_precedes_irreflexive(time_of(item));
        }
    }
    assert forall|i: int, j: int|
        0 <= i < j < out.len() && (moment_of(out[i]) is Some || moment_of(out[j]) is None) implies !earlier(
        #[trigger] out[j],
        #[trigger] out[i],
    ) by {
        if i == n {
            assert(out[j] == rest[j - 1]);
            assert(earlier(item, rest[j - 1]));
            lemma_text_order(time_of(item), time_of(rest[j - 1]), time_of(item));
        } else if j == n {
            assert(out[i] == rest[i]);
        } else {
            let a = if i < n {
                i
            } else {
                i - 1
            };
            let b = if j < n {
                j
            } else {
                j - 1
            };
            assert(out[i] == rest[a]);
            assert(out[j] == rest[b]);
        }
    }
}

proof fn lemma_place_keeps_greater(item: JsonView, rest: Seq<JsonView>)
    requires
        before_greater(rest),
        moment_of(item) is None,
    ensures
        before_greater(placed_by_time(item, rest)),
{
    let n = place_in(item, rest) as int;
    let out = rest.insert(n, item);
    lemma_placed_at(item, rest);
    assert forall|i: int, j: int| 0 <= i < j < out.len() implies #[trigger] next_is_greater(
        out,
        i,
        j,
    ) by {
        if j != n && none_dated(out, i, j) && moment_of(out[j]) is Some {
            let b = if j < n {
                j
            } else {
                j - 1
            };
            let a = if i <= n {
                i
            } else {
                i - 1
            };
            assert(out[j] == rest[b]);
            assert forall|k: int| a <= k < b implies moment_of(#[trigger] rest[k]) is None by {
                if k < n {
                    assert(out[k] == rest[k]);
                } else {
                    assert(out[k + 1] == rest[k]);
                }
            }
            if a < b {
                assert(next_is_greater(rest, a, b));
            }
            if i == n {
                assert(earlier(item, rest[n]));
                if n < b {
                    law_precedes_transitive(time_of(item), time_of(rest[n]), time_of(rest[b]));
                }
            } else {
                assert(out[i] == rest[a]);
            }
        }
    }
}

proof fn lemma_all_placed(items: Seq<JsonView>, dated: bool, list: Seq<JsonView>)
    requires
        in_place(list),
        before_greater(list),
        dated ==> all_dated(list),
    ensures
        in_place(all_placed(items, dated, list)),
        before_greater(all_placed(items, dated, list)),
        dated ==> all_dated(all_placed(items, dated, list)),
    decreases items.len(),
{
    if items.len() > 0 {
        let rest = all_placed(items.drop_last(), dated, list);
        lemma_all_placed(items.drop_last(), dated, list);
        if (moment_of(items.last()) is Some) == dated {
            lemma_place_keeps_order(items.last(), rest);
            if !dated {
                lemma_place_keeps_greater(items.last(), rest);
            } else {
                let out = placed_by_time(items.last(), rest);
                assert forall|i: int, j: int|
                    0 <= i < j < out.len() implies #[trigger] next_is_greater(out, i, j) by {
                    assert(moment_of(out[i]) is Some);
                }
            }
        }
    }
}

proof fn lemma_in_time_order(items: Seq<JsonView>)
    ensures
        in_place(in_time_order(items)),
        before_greater(in_time_order(items)),
{
    lemma_all_placed(items, true, Seq::empty());
    lemma_all_placed(items, false, all_placed(items, true, Seq::empty()));
}

/// Whether of two items of a list that state when they happened, the first did not happen after
/// the second.
pub open spec fn oldest_first(items: Seq<JsonView>) -> bool {
    forall|i: int, j: int|
        0 <= i < j < items.len() && moment_of(#[trigger] items[i]) is Some && moment_of(
            #[trigger] items[j],
        ) is Some ==> moment_of(items[i])->0.unix_nanos() <= moment_of(items[j])->0.unix_nanos()
}

/// The feed goes from oldest to newest, as far as its items state when they happened.
pub proof fn law_feed_is_oldest_first(items: Seq<JsonView>)
    ensures
        oldest_first(in_time_order(items)),
{
    lemma_in_time_order(items);
    let feed = in_time_order(items);
    assert forall|i: int, j: int|
        0 <= i < j < feed.len() && moment_of(#[trigger] feed[i]) is Some && moment_of(
            #[trigger] feed[j],
        ) is Some implies moment_of(feed[i])->0.unix_nanos() <= moment_of(
        feed[j],
    )->0.unix_nanos() by {
        assert(!earlier(feed[j], feed[i]));
    }
}

/// An item whose text states no point in time stands in the feed by its text: no item before it has
/// a greater text, and the first item behind it that does state one has a greater text.
pub proof fn law_unclear_times_go_by_text(items: Seq<JsonView>, i: int, j: int)
    requires
        0 <= i < j < in_time_order(items).len(),
    ensures
        moment_of(in_time_order(items)[j]) is None ==> !precedes(
            time_of(in_time_order(items)[j]),
            time_of(in_time_order(items)[i]),
        ),
        none_dated(in_time_order(items), i, j) && moment_of(in_time_order(items)[j]) is Some
            ==> precedes(time_of(in_time_order(items)[i]), time_of(in_time_order(items)[j])),
{
    lemma_in_time_order(items);
    let feed = in_time_order(items);
    if moment_of(feed[j]) is None {
        assert(!earlier(feed[j], feed[i]));
    }
    assert(next_is_greater(feed, i, j));
}

proof fn lemma_next_dated(list: Seq<JsonView>, i: int, j: int) -> (k: int)
    requires
        0 <= i < j < list.len(),
        moment_of(list[i]) is None,
        moment_of(list[j]) is Some,
    ensures
        i < k <= j,
        moment_of(list[k]) is Some,
        none_dated(list, i, k),
    decreases j - i,
{
    if moment_of(list[i + 1]) is Some {
        i + 1
    } else {
        lemma_next_dated(list, i + 1, j)
    }
}

/// Where the texts of the items that state when they happened are in the order of what they state,
/// the whole feed is in the order of its texts.
pub proof fn law_feed_goes_by_text(items: Seq<JsonView>)
    requires
        forall|a: JsonView, b: JsonView|
            #![trigger earlier(a, b)]
            items.contains(a) && items.contains(b) && moment_of(a) is Some && moment_of(b) is Some
                ==> earlier(a, b) == precedes(time_of(a), time_of(b)),
    ensures
        forall|i: int, j: int|
            0 <= i < j < in_time_order(items).len() ==> !precedes(
                time_of(#[trigger] in_time_order(items)[j]),
                time_of(#[trigger] in_time_order(items)[i]),
            ),
{
    lemma_in_time_order(items);
    let feed = in_time_order(items);
    assert forall|i: int| 0 <= i < feed.len() implies items.contains(#[trigger] feed[i]) by {
        lemma_feed_item(items, i);
    }
    assert forall|i: int, j: int| 0 <= i < j < feed.len() implies !precedes(
        time_of(#[trigger] feed[j]),
        time_of(#[trigger] feed[i]),
    ) by {
        if moment_of(feed[i]) is Some || moment_of(feed[j]) is None {
            assert(!earlier(feed[j], feed[i]));
        } else {
            let k = lemma_next_dated(feed, i, j);
            assert(next_is_greater(feed, i, k));
            if k < j {
                assert(!earlier(feed[j], feed[k]));
            }
            lemma_text_order(time_of(feed[i]), time_of(feed[k]), time_of(feed[j]));
            lemma_text_order(time_of(feed[i]), time_of(feed[j]), time_of(feed[i]));
            lemma_text_order(time_of(feed[k]), time_of(feed[k]), time_of(feed[k]));
        }
    }
}

/// The items whose times can be read, or the others.
spec fn with_time(items: Seq<JsonView>, dated: bool) -> Seq<JsonView>
    decreases items.len(),
{
    if items.len() == 0 {
        Seq::empty()
    } else if (moment_of(items.last()) is Some) == dated {
        with_time(items.drop_last(), dated).push(items.last())
    } else {
        with_time(items.drop_last(), dated)
    }
}

proof fn lemma_placed_items(items: Seq<JsonView>, dated: bool, list: Seq<JsonView>)
    ensures
        all_placed(items, dated, list).to_multiset() == list.to_multiset().add(
            with_time(items, dated).to_multiset(),
        ),
    decreases items.len(),
{
    broadcast use vstd::seq_lib::group_to_multiset_ensures;

    if items.len() > 0 {
        let item = items.last();
        let rest = all_placed(items.drop_last(), dated, list);
        lemma_placed_items(items.drop_last(), dated, list);
        if (moment_of(item) is Some) == dated {
            lemma_placed_at(item, rest);
            vstd::seq_lib::to_multiset_insert(rest, place_in(item, rest) as int, item);
            assert(all_placed(items, dated, list).to_multiset() =~= list.to_multiset().add(
                with_time(items, dated).to_multiset(),
            ));
        }
    } else {
        assert(with_time(items, dated) =~= Seq::empty());
        assert(list.to_multiset() =~= list.to_multiset().add(
            with_time(items, dated).to_multiset(),
        ));
    }
}

proof fn lemma_split_items(items: Seq<JsonView>)
    ensures
        with_time(items, true).to_multiset().add(with_time(items, false).to_multiset())
            == items.to_multiset(),
    decreases items.len(),
{
    broadcast use vstd::seq_lib::group_to_multiset_ensures;

    if items.len() > 0 {
        lemma_split_items(items.drop_last());
        assert(items.drop_last().push(items.last()) =~= items);
    }
    assert(with_time(items, true).to_multiset().add(with_time(items, false).to_multiset())
        =~= items.to_multiset());
}

/// The feed holds the gathered items, each as often as it was gathered.
pub proof fn law_feed_keeps_items(items: Seq<JsonView>)
    ensures
        in_time_order(items).to_multiset() == items.to_multiset(),
        in_time_order(items).len() == items.len(),
{
    broadcast use vstd::seq_lib::group_to_multiset_ensures;

    let none = Seq::<JsonView>::empty();
    lemma_placed_items(items, true, none);
    lemma_placed_items(items, false, all_placed(items, true, none));
    lemma_split_items(items);
    assert(none.to_multiset().add(with_time(items, true).to_multiset()) =~= with_time(
        items,
        true,
    ).to_multiset());
    assert(in_time_order(items).to_multiset().len() == in_time_order(items).len());
}

proof fn lemma_feed_item(items: Seq<JsonView>, i: int)
    requires
        0 <= i < in_time_order(items).len(),
    ensures
        items.contains(in_time_order(items)[i]),
{
    broadcast use vstd::seq_lib::group_to_multiset_ensures;

    let feed = in_time_order(items);
    law_feed_keeps_items(items);
    assert(feed.contains(feed[i]));
    assert(items.to_multiset().count(feed[i]) > 0);
}

/// The items that state the time that `item` states.
pub open spec fn at_time_of(items: Seq<JsonView>, item: JsonView) -> Seq<JsonView>
    decreases items.len(),
{
    if items.len() == 0 {
        Seq::empty()
    } else if time_of(items.last()) == time_of(item) {
        at_time_of(items.drop_last(), item).push(items.last())
    } else {
        at_time_of(items.drop_last(), item)
    }
}

proof fn lemma_at_time_concat(a: Seq<JsonView>, b: Seq<JsonView>, item: JsonView)
    ensures
        at_time_of(a + b, item) == at_time_of(a, item) + at_time_of(b, item),
    decreases b.len(),
{
    if b.len() == 0 {
        assert(a + b =~= a);
    } else {
        assert((a + b).drop_last() =~= a + b.drop_last());
        lemma_at_time_concat(a, b.drop_last(), item);
    }
}

proof fn lemma_none_at_time(items: Seq<JsonView>, item: JsonView)
    requires
        forall|i: int| 0 <= i < items.len() ==> time_of(#[trigger] items[i]) != time_of(item),
    ensures
        at_time_of(items, item) == Seq::<JsonView>::empty(),
    decreases items.len(),
{
    if items.len() > 0 {
        assert(time_of(items[items.len() - 1]) != time_of(item));
        assert forall|i: int| 0 <= i < items.drop_last().len() implies time_of(
            #[trigger] items.drop_last()[i],
        ) != time_of(item) by {
            assert(items.drop_last()[i] == items[i]);
        }
        lemma_none_at_time(items.drop_last(), item);
    }
}

proof fn lemma_placed_at_time(new: JsonView, rest: Seq<JsonView>, item: JsonView)
    requires
        in_place(rest),
        moment_of(new) is Some ==> all_dated(rest),
    ensures
        at_time_of(placed_by_time(new, rest), item) == if time_of(new) == time_of(item) {
            at_time_of(rest, item).push(new)
        } else {
            at_time_of(rest, item)
        },
{
    let n = place_in(new, rest) as int;
    lemma_placed_at(new, rest);
    lemma_place_keeps_order(new, rest);
    let first = rest.take(n);
    let last = rest.skip(n);
    assert(rest =~= first + last);
    assert(rest.insert(n, new) =~= first.push(new) + last);
    lemma_at_time_concat(first, last, item);
    lemma_at_time_concat(first.push(new), last, item);
    assert(first.push(new).drop_last() =~= first);
    if time_of(new) == time_of(item) {
        assert forall|i: int| 0 <= i < last.len() implies time_of(#[trigger] last[i]) != time_of(
            item,
        ) by {
            assert(last[i] == rest[n + i]);
        }
        lemma_none_at_time(last, item);
    }
}

proof fn lemma_all_placed_at_time(
    items: Seq<JsonView>,
    dated: bool,
    list: Seq<JsonView>,
    item: JsonView,
)
    requires
        in_place(list),
        before_greater(list),
        dated ==> all_dated(list),
    ensures
        at_time_of(all_placed(items, dated, list), item) == if (moment_of(item) is Some) == dated {
            at_time_of(list, item) + at_time_of(items, item)
        } else {
            at_time_of(list, item)
        },
    decreases items.len(),
{
    if items.len() > 0 {
        let rest = all_placed(items.drop_last(), dated, list);
        lemma_all_placed(items.drop_last(), dated, list);
        lemma_all_placed_at_time(items.drop_last(), dated, list, item);
        if (moment_of(items.last()) is Some) == dated {
            lemma_placed_at_time(items.last(), rest, item);
        }
    }
    assert(at_time_of(all_placed(items, dated, list), item) =~= if (moment_of(item) is Some)
        == dated {
        at_time_of(list, item) + at_time_of(items, item)
    } else {
        at_time_of(list, item)
    });
}

/// The items of one time stand in the feed in the order in which they were gathered.
pub proof fn law_feed_is_stable(items: Seq<JsonView>, item: JsonView)
    ensures
        at_time_of(in_time_order(items), item) == at_time_of(items, item),
{
    let none = Seq::<JsonView>::empty();
    let first = all_placed(items, true, none);
    lemma_all_placed(items, true, none);
    lemma_all_placed_at_time(items, true, none, item);
    lemma_all_placed_at_time(items, false, first, item);
    assert(at_time_of(in_time_order(items), item) =~= at_time_of(items, item));
}

// The report.

/// The kinds of the items that have one.
pub open spec fn kinds_of(items: Seq<JsonView>) -> Seq<Seq<char>>
    decreases items.len(),
{
    if items.len() == 0 {
        Seq::empty()
    } else {
        match text_value(field(items.last(), "kind"@)) {
            Some(kind) => kinds_of(items.drop_last()).push(kind),
            None => kinds_of(items.drop_last()),
        }
    }
}

/// Where the report says that its items come from.
pub const LIVE_NOTE: &'static str = "Live read from GitHub/Linear/Slack APIs (not the wiki's synthesized state) — same sources the Centaur agent reads.";

/// The feed since `start` of gathered items.
pub open spec fn feed_json(
    start: Timestamp,
    items: Seq<JsonView>,
    errors: Seq<Seq<char>>,
) -> JsonView {
    let feed = in_time_order(items);
    JsonView::Object(
        map![
            "since"@ => JsonView::Str(iso_text(Some(start))),
            "live"@ => JsonView::Bool(true),
            "note"@ => JsonView::Str(LIVE_NOTE@),
            "count"@ => JsonView::Int(feed.len() as int),
            "by_kind"@ => JsonView::Object(tally_of(kinds_of(feed))),
            "errors"@ => JsonView::Array(string_items(errors)),
            "items"@ => JsonView::Array(feed),
        ],
    )
}

/// What the services replied.
#[derive(Debug, PartialEq, Eq)]
pub struct Replies {
    pub merged_prs: Vec<Reply>,
    pub releases: Vec<Reply>,
    pub linear: Option<Json>,
    pub slack: Vec<Reply>,
}

/// The items that the replies name, of the sources that are fetched.
pub open spec fn gathered(plan: LivePlanView, replies: Replies, start: Timestamp) -> Seq<JsonView> {
    let none = Seq::<JsonView>::empty();
    (if plan.merged_prs {
        merged_prs(replies.merged_prs@, PER_REPO as nat)
    } else {
        none
    }) + (if plan.releases {
        releases(replies.releases@, start)
    } else {
        none
    }) + (if plan.linear {
        issues(body_view(replies.linear))
    } else {
        none
    }) + (if plan.slack {
        messages(replies.slack@, PER_CHANNEL as nat)
    } else {
        none
    })
}

/// The kinds of items.
fn item_kinds(items: &Vec<Json>) -> (r: Vec<String>)
    ensures
        texts(r@) == kinds_of(array_view(items@)),
{
    let ghost all = array_view(items@);
    let mut out: Vec<String> = Vec::new();
    let mut i: usize = 0;
    proof {
        lemma_array_view(items@);
        assert(texts(out@) =~= kinds_of(all.take(0)));
    }
    while i < items.len()
        invariant
            i <= items@.len(),
            all.len() == items@.len(),
            forall|j: int| 0 <= j < items@.len() ==> #[trigger] all[j] == items@[j]@,
            texts(out@) == kinds_of(all.take(i as int)),
        decreases items@.len() - i,
    {
        let ghost before = out@;
        let kind = items[i].get_str("kind");
        proof {
            assert(all[i as int] == items@[i as int]@);
            assert(all.take(i + 1).drop_last() =~= all.take(i as int));
        }
        if let Some(kind) = kind {
            out.push(kind);
            proof {
                assert(texts(out@) =~= texts(before).push(kind@));
            }
        }
        i += 1;
    }
    proof {
        assert(all.take(i as int) =~= all);
    }
    out
}

/// Moves all items of one list behind those of another.
fn add_all(out: &mut Vec<Json>, items: Vec<Json>)
    ensures
        array_view(final(out)@) == array_view(old(out)@) + array_view(items@),
{
    let ghost before = out@;
    let mut items = items;
    let ghost more = items@;
    out.append(&mut items);
    proof {
        lemma_array_view(before);
        lemma_array_view(more);
        lemma_array_view(out@);
        assert(array_view(out@) =~= array_view(before) + array_view(more));
    }
}

/// The feed of what happened from `start` to `end`, where an end is stated, in `sources`, of
/// which an empty list stands for all, out of what the services replied.
pub fn live_recent_activity(
    start: Timestamp,
    end: Option<Timestamp>,
    sources: &Vec<String>,
    held: Credentials,
    replies: &Replies,
) -> (r: Json)
    requires
        start.valid(),
        end matches Some(t) ==> t.valid(),
    ensures
        r@ == feed_json(
            start,
            before_end(
                gathered(plan_of(texts(sources@), held), *replies, start),
                end,
            ),
            plan_of(texts(sources@), held).errors,
        ),
{
    let plan = live_plan(sources, held);
    let mut items: Vec<Json> = Vec::new();
    if plan.merged_prs {
        add_all(&mut items, fetch_live_merged_prs(&replies.merged_prs, PER_REPO));
    }
    if plan.releases {
        add_all(&mut items, fetch_live_releases(&replies.releases, start));
    }
    if plan.linear {
        let body = match &replies.linear {
            Some(json) => Some(json),
            None => None,
        };
        add_all(&mut items, fetch_live_linear(body));
    }
    if plan.slack {
        add_all(&mut items, fetch_live_slack(&replies.slack, PER_CHANNEL));
    }
    proof {
        assert(array_view(items@) =~= gathered(plan@, *replies, start));
    }
    let items = sort_by_time(&cut_at_end(items, end));
    let kinds = item_kinds(&items);
    proof {
        lemma_array_view(items@);
    }
    let mut fields: Vec<(String, Json)> = Vec::new();
    put_text(&mut fields, "since", iso(Some(start)).as_str());
    put(&mut fields, "live", Json::Bool(true));
    put_text(&mut fields, "note", LIVE_NOTE);
    put(&mut fields, "count", Json::Int(items.len() as i128));
    put(&mut fields, "by_kind", tally(&kinds));
    put(&mut fields, "errors", string_array(&plan.errors));
    put(&mut fields, "items", Json::Array(items));
    Json::Object(fields)
}

/// The kind of an item.
pub open spec fn kind_of(item: JsonView) -> Option<Seq<char>> {
    text_value(field(item, "kind"@))
}

/// Whether every item is of one kind.
pub open spec fn all_of_kind(items: Seq<JsonView>, kind: Seq<char>) -> bool {
    forall|i: int| 0 <= i < items.len() ==> kind_of(#[trigger] items[i]) == Some(kind)
}

proof fn lemma_kinds_of_items(name: Seq<char>, item: JsonView)
    ensures
        kind_of(merged_pr_json(name, item)) == Some("pr"@),
        kind_of(release_json(name, item)) == Some("release"@),
        kind_of(issue_json(item)) == Some("linear"@),
        kind_of(message_json(name, item)) == Some("slack"@),
{
    reveal_strlit("kind");
    reveal_strlit("repo");
    reveal_strlit("id");
    reveal_strlit("title");
    reveal_strlit("author");
    reveal_strlit("occurred_at");
    reveal_strlit("url");
    reveal_strlit("body");
    reveal_strlit("state");
    reveal_strlit("assignee");
    reveal_strlit("channel_id");
    assert("kind"@[0] == 'k');
    assert("repo"@[0] == 'r');
    assert("body"@[0] == 'b');
}

proof fn lemma_prs_are_prs(replies: Seq<Reply>, per_repo: nat)
    ensures
        all_of_kind(merged_prs(replies, per_repo), "pr"@),
    decreases replies.len(),
{
    if replies.len() > 0 {
        lemma_prs_are_prs(replies.drop_last(), per_repo);
        assert forall|item: JsonView|
            kind_of(#[trigger] merged_pr_json(replies.last().name@, item)) == Some("pr"@) by {
            lemma_kinds_of_items(replies.last().name@, item);
        }
    }
}

proof fn lemma_releases_in(repo: Seq<char>, items: Seq<JsonView>, start: Timestamp)
    ensures
        all_of_kind(releases_in(repo, items, start), "release"@),
    decreases items.len(),
{
    if items.len() > 0 {
        lemma_releases_in(repo, items.drop_last(), start);
        lemma_kinds_of_items(repo, items.last());
    }
}

proof fn lemma_releases_are_releases(replies: Seq<Reply>, start: Timestamp)
    ensures
        all_of_kind(releases(replies, start), "release"@),
    decreases replies.len(),
{
    if replies.len() > 0 {
        lemma_releases_are_releases(replies.drop_last(), start);
        lemma_releases_in(
            replies.last().name@,
            items_of(body_view(replies.last().body)),
            start,
        );
    }
}

proof fn lemma_issues_are_issues(body: Option<JsonView>)
    ensures
        all_of_kind(issues(body), "linear"@),
{
    assert forall|item: JsonView| kind_of(#[trigger] issue_json(item)) == Some("linear"@) by {
        lemma_kinds_of_items(Seq::empty(), item);
    }
}

proof fn lemma_messages_in(channel: Seq<char>, items: Seq<JsonView>)
    ensures
        all_of_kind(messages_in(channel, items), "slack"@),
    decreases items.len(),
{
    if items.len() > 0 {
        lemma_messages_in(channel, items.drop_last());
        lemma_kinds_of_items(channel, items.last());
    }
}

proof fn lemma_messages_are_messages(replies: Seq<Reply>, per_channel: nat)
    ensures
        all_of_kind(messages(replies, per_channel), "slack"@),
    decreases replies.len(),
{
    if replies.len() > 0 {
        lemma_messages_are_messages(replies.drop_last(), per_channel);
        lemma_messages_in(
            replies.last().name@,
            history_of(body_view(replies.last().body), per_channel),
        );
    }
}

/// Whether items of a kind are asked for.
pub open spec fn wants_kind(sources: Seq<Seq<char>>, kind: Seq<char>) -> bool {
    wants(sources, kind) || ((kind == "pr"@ || kind == "release"@) && wants(sources, "github"@))
}

/// The feed holds nothing but pull requests, releases, issues and messages, and of those only
/// what was asked for.
pub proof fn law_feed_holds_what_was_asked_for(
    sources: Seq<Seq<char>>,
    held: Credentials,
    replies: Replies,
    start: Timestamp,
    i: int,
)
    requires
        0 <= i < gathered(plan_of(sources, held), replies, start).len(),
    ensures
        ({
            let kind = kind_of(gathered(plan_of(sources, held), replies, start)[i]);
            &&& kind is Some
            &&& wants_kind(sources, kind->0)
            &&& kind->0 == "pr"@ || kind->0 == "release"@ || kind->0 == "linear"@ || kind->0
                == "slack"@
        }),
{
    lemma_prs_are_prs(replies.merged_prs@, PER_REPO as nat);
    lemma_releases_are_releases(replies.releases@, start);
    lemma_issues_are_issues(body_view(replies.linear));
    lemma_messages_are_messages(replies.slack@, PER_CHANNEL as nat);
}

/// The counts of a feed by kind cover all of its items.
pub proof fn law_feed_is_counted(
    sources: Seq<Seq<char>>,
    held: Credentials,
    replies: Replies,
    start: Timestamp,
    end: Option<Timestamp>,
)
    ensures
        ({
            let feed = in_time_order(
                before_end(gathered(plan_of(sources, held), replies, start), end),
            );
            total(sorted_distinct(kinds_of(feed)), kinds_of(feed)) == feed.len()
        }),
{
    let all = gathered(plan_of(sources, held), replies, start);
    let items = before_end(all, end);
    let feed = in_time_order(items);
    law_feed_keeps_items(items);
    assert forall|i: int| 0 <= i < feed.len() implies kind_of(#[trigger] feed[i]) is Some by {
        lemma_feed_item(items, i);
        let k = choose|k: int| 0 <= k < items.len() && items[k] == feed[i];
        law_feed_ends_at_end(all, end, k);
        let j = choose|j: int| 0 <= j < all.len() && all[j] == feed[i];
        law_feed_holds_what_was_asked_for(sources, held, replies, start, j);
    }
    lemma_kinds_len(feed);
    law_tally_adds_up(kinds_of(feed));
}

proof fn lemma_kinds_len(items: Seq<JsonView>)
    requires
        forall|i: int| 0 <= i < items.len() ==> kind_of(#[trigger] items[i]) is Some,
    ensures
        kinds_of(items).len() == items.len(),
    decreases items.len(),
{
    if items.len() > 0 {
        assert forall|i: int| 0 <= i < items.drop_last().len() implies kind_of(
            #[trigger] items.drop_last()[i],
        ) is Some by {
            assert(items.drop_last()[i] == items[i]);
        }
        lemma_kinds_len(items.drop_last());
        assert(kind_of(items[items.len() - 1]) is Some);
    }
}

// What the feed is made of.

/// What is fetched, by the names of the sources: pull requests and releases where they or the code
/// host are named, issues and messages where they are named, and all of them where nothing is; each
/// only with its credentials. For each service that is needed and has no credentials there is one
/// error, in the order of the services.
pub proof fn law_plan_goes_by_names(sources: Seq<Seq<char>>, held: Credentials)
    ensures
        ({
            let plan = plan_of(sources, held);
            let all = sources.len() == 0;
            let prs = all || sources.contains("github"@) || sources.contains("pr"@);
            let rels = all || sources.contains("github"@) || sources.contains("release"@);
            let linear = all || sources.contains("linear"@);
            let slack = all || sources.contains("slack"@);
            let no_github = "github: no CODE_REVIEW_GITHUB_TOKEN/GITHUB_GATEWAY_TOKEN"@;
            let no_linear = "linear: no LINEAR_API_KEY"@;
            let no_slack = "slack: no SLACK_BOT_TOKEN"@;
            &&& plan.merged_prs == (prs && held.github)
            &&& plan.releases == (rels && held.github)
            &&& plan.linear == (linear && held.linear)
            &&& plan.slack == (slack && held.slack)
            &&& plan.errors.len() == (if (prs || rels) && !held.github {
                1nat
            } else {
                0
            }) + (if linear && !held.linear {
                1nat
            } else {
                0
            }) + (if slack && !held.slack {
                1nat
            } else {
                0
            })
            &&& (prs || rels) && !held.github ==> plan.errors[0] == no_github
            &&& slack && !held.slack ==> plan.errors.last() == no_slack
            &&& linear && !held.linear ==> plan.errors.contains(no_linear)
        }),
{
    let plan = plan_of(sources, held);
    let no_linear = "linear: no LINEAR_API_KEY"@;
    let a = note_if(
        (wants_prs(sources) || wants_releases(sources)) && !held.github,
        "github: no CODE_REVIEW_GITHUB_TOKEN/GITHUB_GATEWAY_TOKEN"@,
    );
    if wants(sources, "linear"@) && !held.linear {
        assert(plan.errors[a.len() as int] == no_linear);
    }
}

/// A plan that fetches nothing.
pub open spec fn no_plan() -> LivePlanView {
    LivePlanView {
        merged_prs: false,
        releases: false,
        linear: false,
        slack: false,
        errors: Seq::empty(),
    }
}

/// What is gathered are the items of the sources that are fetched: the pull requests, at most fifty
/// of a repository, then the releases, the issues, and the messages out of the first sixty of a
/// channel.
pub proof fn law_sources_are_gathered_in_order(
    plan: LivePlanView,
    replies: Replies,
    start: Timestamp,
)
    ensures
        ({
            let prs = LivePlanView { merged_prs: plan.merged_prs, ..no_plan() };
            let rels = LivePlanView { releases: plan.releases, ..no_plan() };
            let linear = LivePlanView { linear: plan.linear, ..no_plan() };
            let slack = LivePlanView { slack: plan.slack, ..no_plan() };
            &&& gathered(plan, replies, start) == gathered(prs, replies, start) + gathered(
                rels,
                replies,
                start,
            ) + gathered(linear, replies, start) + gathered(slack, replies, start)
            &&& plan.merged_prs ==> gathered(prs, replies, start) == merged_prs(
                replies.merged_prs@,
                50,
            )
            &&& plan.releases ==> gathered(rels, replies, start) == releases(
                replies.releases@,
                start,
            )
            &&& plan.linear ==> gathered(linear, replies, start) == issues(
                body_view(replies.linear),
            )
            &&& plan.slack ==> gathered(slack, replies, start) == messages(replies.slack@, 60)
        }),
        gathered(no_plan(), replies, start).len() == 0,
{
    let none = Seq::<JsonView>::empty();
    let prs = LivePlanView { merged_prs: plan.merged_prs, ..no_plan() };
    let rels = LivePlanView { releases: plan.releases, ..no_plan() };
    let linear = LivePlanView { linear: plan.linear, ..no_plan() };
    let slack = LivePlanView { slack: plan.slack, ..no_plan() };
    assert(gathered(prs, replies, start) =~= if plan.merged_prs {
        merged_prs(replies.merged_prs@, 50)
    } else {
        none
    });
    assert(gathered(rels, replies, start) =~= if plan.releases {
        releases(replies.releases@, start)
    } else {
        none
    });
    assert(gathered(linear, replies, start) =~= if plan.linear {
        issues(body_view(replies.linear))
    } else {
        none
    });
    assert(gathered(slack, replies, start) =~= if plan.slack {
        messages(replies.slack@, 60)
    } else {
        none
    });
    assert(gathered(plan, replies, start) =~= gathered(prs, replies, start) + gathered(
        rels,
        replies,
        start,
    ) + gathered(linear, replies, start) + gathered(slack, replies, start));
}

/// A stated end leaves out exactly the items that state a point in time at or behind it, and keeps
/// the others in their order.
pub proof fn law_end_leaves_out_later(
    a: Seq<JsonView>,
    b: Seq<JsonView>,
    item: JsonView,
    end: Timestamp,
)
    ensures
        before_end(a + b, Some(end)) == before_end(a, Some(end)) + before_end(b, Some(end)),
        before_end(seq![item], Some(end)) == match stated_moment(
            Some(text_at(item, "occurred_at"@)),
        ) {
            Some(moment) => if end.unix_nanos() <= moment.unix_nanos() {
                Seq::empty()
            } else {
                seq![item]
            },
            None => seq![item],
        },
        before_end(Seq::empty(), Some(end)).len() == 0,
    decreases b.len(),
{
    assert(seq![item].drop_last() =~= Seq::empty());
    assert(before_end(seq![item].drop_last(), Some(end)) =~= Seq::empty());
    assert(Seq::empty().push(item) =~= seq![item]);
    if b.len() == 0 {
        assert(a + b =~= a);
    } else {
        assert((a + b).drop_last() =~= a + b.drop_last());
        law_end_leaves_out_later(a, b.drop_last(), item, end);
    }
    assert(before_end(a + b, Some(end)) =~= before_end(a, Some(end)) + before_end(b, Some(end)));
}

/// The items that a feed lists are the given ones in the order of time.
pub proof fn lemma_feed_items(start: Timestamp, items: Seq<JsonView>, errors: Seq<Seq<char>>)
    ensures
        items_of(field(feed_json(start, items, errors), "items"@)) == in_time_order(items),
{
    lemma_feed_fields(start, items, errors);
}

/// Each item of the feed was gathered.
pub proof fn law_feed_items_were_gathered(items: Seq<JsonView>, i: int)
    requires
        0 <= i < in_time_order(items).len(),
    ensures
        items.contains(in_time_order(items)[i]),
{
    lemma_feed_item(items, i);
}

proof fn lemma_feed_fields(start: Timestamp, items: Seq<JsonView>, errors: Seq<Seq<char>>)
    ensures
        ({
            let r = feed_json(start, items, errors);
            let feed = in_time_order(items);
            &&& field(r, "since"@) == Some(JsonView::Str(iso_text(Some(start))))
            &&& field(r, "live"@) == Some(JsonView::Bool(true))
            &&& field(r, "note"@) == Some(JsonView::Str(LIVE_NOTE@))
            &&& field(r, "count"@) == Some(JsonView::Int(feed.len() as int))
            &&& field(r, "by_kind"@) == Some(JsonView::Object(tally_of(kinds_of(feed))))
            &&& field(r, "errors"@) == Some(JsonView::Array(string_items(errors)))
            &&& field(r, "items"@) == Some(JsonView::Array(feed))
        }),
{
    reveal_strlit("since");
    reveal_strlit("live");
    reveal_strlit("note");
    reveal_strlit("count");
    reveal_strlit("by_kind");
    reveal_strlit("errors");
    reveal_strlit("items");
    assert("since"@.len() == 5);
    assert("live"@.len() == 4);
    assert("note"@.len() == 4);
    assert("count"@.len() == 5);
    assert("by_kind"@.len() == 7);
    assert("errors"@.len() == 6);
    assert("items"@.len() == 5);
    assert("since"@[0] == 's');
    assert("count"@[0] == 'c');
    assert("items"@[0] == 'i');
    assert("live"@[0] == 'l');
    assert("note"@[0] == 'n');
}

proof fn lemma_kinds_are_labels(items: Seq<JsonView>)
    requires
        forall|i: int| 0 <= i < items.len() ==> kind_of(#[trigger] items[i]) is Some,
    ensures
        kinds_of(items) == labels_of(items, "kind"@),
    decreases items.len(),
{
    if items.len() > 0 {
        let less = items.drop_last();
        assert forall|i: int| 0 <= i < less.len() implies kind_of(#[trigger] less[i]) is Some by {
            assert(less[i] == items[i]);
        }
        lemma_kinds_are_labels(less);
        assert(kind_of(items[items.len() - 1]) is Some);
    }
    assert(kinds_of(items) =~= labels_of(items, "kind"@));
}

/// The feed tells since when it goes and that it is live, lists the gathered items, each as often as
/// it was gathered, and the errors in their order, and counts the items: how many there are, and how
/// many there are of each kind that it lists.
pub proof fn law_feed_tells_items(
    start: Timestamp,
    items: Seq<JsonView>,
    errors: Seq<Seq<char>>,
    x: Seq<char>,
)
    requires
        forall|i: int| 0 <= i < items.len() ==> text_value(field(#[trigger] items[i], "kind"@)) is Some,
    ensures
        ({
            let r = feed_json(start, items, errors);
            let listed = items_of(field(r, "items"@));
            &&& field(r, "since"@) == Some(JsonView::Str(iso_text(Some(start))))
            &&& field(r, "live"@) == Some(JsonView::Bool(true))
            &&& field(r, "note"@) == Some(
                JsonView::Str(
                    "Live read from GitHub/Linear/Slack APIs (not the wiki's synthesized state) — same sources the Centaur agent reads."@,
                ),
            )
            &&& listed.to_multiset() == items.to_multiset()
            &&& field(r, "count"@) == Some(JsonView::Int(items.len() as int))
            &&& tells_count(field(r, "by_kind"@), labels_of(listed, "kind"@), x)
            &&& items_of(field(r, "errors"@)).len() == errors.len()
            &&& forall|i: int|
                0 <= i < errors.len() ==> #[trigger] items_of(field(r, "errors"@))[i]
                    == JsonView::Str(errors[i])
        }),
{
    let feed = in_time_order(items);
    lemma_feed_fields(start, items, errors);
    law_feed_keeps_items(items);
    assert forall|i: int| 0 <= i < feed.len() implies kind_of(#[trigger] feed[i]) is Some by {
        lemma_feed_item(items, i);
        let k = choose|k: int| 0 <= k < items.len() && items[k] == feed[i];
        assert(text_value(field(items[k], "kind"@)) is Some);
    }
    lemma_kinds_are_labels(feed);
    law_tally_tells_counts(kinds_of(feed), x);
}

/// A plan, by what it holds.
pub proof fn law_plan_is_its_fields(plan: LivePlan)
    ensures
        plan@.merged_prs == plan.merged_prs,
        plan@.releases == plan.releases,
        plan@.linear == plan.linear,
        plan@.slack == plan.slack,
        plan@.errors == texts(plan.errors@),
{
}

} // verus!
