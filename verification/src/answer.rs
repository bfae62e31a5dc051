//! What calls are answered with, out of what was found for them.
use crate::activity::{
    before_end, feed_json, gathered, in_time_order, law_feed_ends_at_end,
    law_feed_holds_what_was_asked_for, law_feed_items_were_gathered, law_feed_keeps_items,
    lemma_feed_items, live_recent_activity, plan_of, Credentials, Replies,
};
use crate::changes::{changes_json, wiki_changes, PageChange, SourceRow};
use crate::clock::Timestamp;
use crate::diff::{after_or_latest, diff_answer, states_comparable, wiki_diff, Revision};
use crate::error::{outcome, ApiError, ApiErrorView};
use crate::graph::{graph_of, wiki_graph};
use crate::json::{field, i64_value, items_of, text_value, Json, JsonView};
use crate::mcp::{
    call_of, lemma_tool_names_differ, query_of, strings_in, tool_names, ToolCall, ToolCallView,
};
use crate::page::{page_answer, wiki_page, PageRow};
use crate::search::{answer_search, search_answer, SearchRow};
use crate::text::optional_text;
use crate::timeline::{event_timeline, events_json, TimelineRow};
use vstd::prelude::*;

verus! {

/// What was found for a call: the rows that the tables gave, or what the services replied. Rows
/// that could not be read are absent.
#[derive(Debug, PartialEq, Eq)]
pub enum Found {
    Hits { rows: Vec<SearchRow> },
    Page { row: Option<PageRow> },
    Pages { rows: Vec<PageRow> },
    Changes {
        start: Timestamp,
        end: Timestamp,
        pages: Vec<PageChange>,
        sources: Option<Vec<SourceRow>>,
    },
    Events { start: Timestamp, end: Timestamp, rows: Option<Vec<TimelineRow>> },
    States {
        start: Timestamp,
        end: Timestamp,
        title: Option<String>,
        before: Option<Revision>,
        after: Option<Revision>,
        latest: Option<Revision>,
    },
    Live { start: Timestamp, end: Option<Timestamp>, held: Credentials, replies: Replies },
}

/// The rows of a table that may be missing.
pub open spec fn rows_of<T>(rows: Option<Vec<T>>) -> Seq<T> {
    match rows {
        Some(rows) => rows@,
        None => Seq::empty(),
    }
}

/// Whether what was found is what a call asks for.
pub open spec fn fits(call: ToolCallView, found: Found) -> bool {
    match call {
        ToolCallView::Search { .. } => found is Hits,
        ToolCallView::Page { .. } => found is Page,
        ToolCallView::Graph => found is Pages,
        ToolCallView::Changes { .. } => found is Changes,
        ToolCallView::Timeline { .. } => found is Events,
        ToolCallView::Diff { .. } => found matches Found::States {
            start,
            end,
            title,
            before,
            after,
            latest,
        } && states_comparable(optional_text(title), before, after_or_latest(after, latest)),
        ToolCallView::Activity { .. } => found matches Found::Live { start, end, held, replies }
            && start.valid() && (end matches Some(t) ==> t.valid()),
    }
}

/// What a call is answered with, out of what was found for it.
pub open spec fn answer_of(call: ToolCallView, found: Found) -> Result<JsonView, ApiErrorView> {
    match (call, found) {
        (ToolCallView::Search { q, limit }, Found::Hits { rows }) => Ok(
            search_answer(q, limit, rows@),
        ),
        (ToolCallView::Page { .. }, Found::Page { row }) => page_answer(row),
        (ToolCallView::Graph, Found::Pages { rows }) => Ok(graph_of(rows@)),
        (
            ToolCallView::Changes { .. },
            Found::Changes { start, end, pages, sources },
        ) => Ok(changes_json(start, end, pages@, rows_of(sources))),
        (ToolCallView::Timeline { .. }, Found::Events { start, end, rows }) => Ok(
            events_json(start, end, rows_of(rows), rows_of(rows).reverse()),
        ),
        (
            ToolCallView::Diff { id, .. },
            Found::States { start, end, title, before, after, latest },
        ) => diff_answer(
            id,
            optional_text(title),
            start,
            end,
            before,
            after_or_latest(after, latest),
        ),
        (
            ToolCallView::Activity { sources, .. },
            Found::Live { start, end, held, replies },
        ) => {
            let plan = plan_of(sources, held);
            Ok(feed_json(start, before_end(gathered(plan, replies, start), end), plan.errors))
        },
        _ => arbitrary(),
    }
}

/// What a call is answered with, out of what was found for it.
pub fn answer(call: &ToolCall, found: &Found) -> (r: Result<Json, ApiError>)
    requires
        fits(call@, *found),
    ensures
        outcome(r) == answer_of(call@, *found),
{
    match (call, found) {
        (ToolCall::Search { q, limit }, Found::Hits { rows }) => Ok(
            answer_search(q.as_str(), *limit, rows),
        ),
        (ToolCall::Page { .. }, Found::Page { row }) => wiki_page(row.as_ref()),
        (ToolCall::Graph, Found::Pages { rows }) => Ok(wiki_graph(rows)),
        (ToolCall::Changes { .. }, Found::Changes { start, end, pages, sources }) => Ok(
            wiki_changes(*start, *end, pages, sources.as_ref()),
        ),
        (ToolCall::Timeline { .. }, Found::Events { start, end, rows }) => Ok(
            event_timeline(*start, *end, rows.as_ref()),
        ),
        (
            ToolCall::Diff { id, .. },
            Found::States { start, end, title, before, after, latest },
        ) => {
            let title: Option<&str> = match title {
                Some(title) => Some(title.as_str()),
                None => None,
            };
            wiki_diff(
                id.as_str(),
                title,
                *start,
                *end,
                before.as_ref(),
                after.as_ref(),
                latest.as_ref(),
            )
        },
        (
            ToolCall::Activity { sources, .. },
            Found::Live { start, end, held, replies },
        ) => Ok(live_recent_activity(*start, *end, sources, *held, replies)),
        _ => unreached(),
    }
}

/// What the call of a tool by its name is answered with, out of what was found for it.
pub open spec fn tool_answer(name: Seq<char>, args: JsonView, found: Found) -> Result<
    JsonView,
    ApiErrorView,
> {
    match call_of(name, args) {
        Ok(call) => answer_of(call, found),
        Err(e) => Err(e),
    }
}

/// Each tool that reads the wiki makes the call that the route of the same purpose makes with the
/// same parameters, so that the same is read for both, and is answered with what that route is
/// answered with, a refusal included: `search_wiki` as a search, `read_page` as a page,
/// `wiki_graph` as the graph, `recent_changes` as the changes, `page_diff` as a diff, and
/// `event_timeline` as the timeline, with its events from oldest to newest.
pub proof fn law_tools_answer_as_routes(args: JsonView, found: Found)
    ensures
        text_value(field(args, "q"@)) matches Some(q) ==> {
            let limit = i64_value(field(args, "limit"@));
            &&& call_of("search_wiki"@, args) == Ok::<_, ApiErrorView>(
                ToolCallView::Search { q, limit },
            )
            &&& found matches Found::Hits { rows } ==> tool_answer("search_wiki"@, args, found)
                == Ok::<_, ApiErrorView>(search_answer(q, limit, rows@))
        },
        text_value(field(args, "document_id"@)) matches Some(document_id) ==> {
            &&& call_of("read_page"@, args) == Ok::<_, ApiErrorView>(
                ToolCallView::Page { document_id },
            )
            &&& found matches Found::Page { row } ==> tool_answer("read_page"@, args, found)
                == page_answer(row)
        },
        call_of("wiki_graph"@, args) == Ok::<_, ApiErrorView>(ToolCallView::Graph),
        found matches Found::Pages { rows } ==> tool_answer("wiki_graph"@, args, found) == Ok::<
            _,
            ApiErrorView,
        >(graph_of(rows@)),
        call_of("recent_changes"@, args) == Ok::<_, ApiErrorView>(
            ToolCallView::Changes { query: query_of(args) },
        ),
        found matches Found::Changes { start, end, pages, sources } ==> tool_answer(
            "recent_changes"@,
            args,
            found,
        ) == Ok::<_, ApiErrorView>(changes_json(start, end, pages@, rows_of(sources))),
        call_of("event_timeline"@, args) == Ok::<_, ApiErrorView>(
            ToolCallView::Timeline { query: query_of(args) },
        ),
        found matches Found::Events { start, end, rows } ==> tool_answer(
            "event_timeline"@,
            args,
            found,
        ) == Ok::<_, ApiErrorView>(
            events_json(start, end, rows_of(rows), rows_of(rows).reverse()),
        ),
        text_value(field(args, "id"@)) matches Some(id) ==> {
            &&& call_of("page_diff"@, args) == Ok::<_, ApiErrorView>(
                ToolCallView::Diff { id, query: query_of(args) },
            )
            &&& found matches Found::States {
                start,
                end,
                title,
                before,
                after,
                latest,
            } ==> tool_answer("page_diff"@, args, found) == diff_answer(
                id,
                optional_text(title),
                start,
                end,
                before,
                after_or_latest(after, latest),
            )
        },
{
    lemma_tool_names_differ();
    assert(tool_names()[0] == "search_wiki"@);
    assert(tool_names()[1] == "read_page"@);
    assert(tool_names()[2] == "wiki_graph"@);
    assert(tool_names()[3] == "recent_changes"@);
    assert(tool_names()[4] == "event_timeline"@);
    assert(tool_names()[5] == "page_diff"@);
}

/// The live tools are answered with the feed of what the services replied: since the start and up to
/// the end of the window, of the sources that the tool stands for or that the call names, with an
/// error for each of these that has no credentials.
pub proof fn law_live_tools_answer_with_feed(
    args: JsonView,
    start: Timestamp,
    end: Option<Timestamp>,
    held: Credentials,
    replies: Replies,
)
    ensures
        ({
            let found = Found::Live { start, end, held, replies };
            let named = strings_in(items_of(field(args, "sources"@)));
            &&& tool_answer("recent_activity"@, args, found) == Ok::<_, ApiErrorView>(
                feed_for(start, end, named, held, replies),
            )
            &&& tool_answer("list_merged_prs"@, args, found) == Ok::<_, ApiErrorView>(
                feed_for(start, end, seq!["pr"@], held, replies),
            )
            &&& tool_answer("list_linear_issues"@, args, found) == Ok::<_, ApiErrorView>(
                feed_for(start, end, seq!["linear"@], held, replies),
            )
            &&& tool_answer("list_slack_activity"@, args, found) == Ok::<_, ApiErrorView>(
                feed_for(start, end, seq!["slack"@], held, replies),
            )
        }),
{
    lemma_tool_names_differ();
    assert(tool_names()[0] == "search_wiki"@);
    assert(tool_names()[1] == "read_page"@);
    assert(tool_names()[2] == "wiki_graph"@);
    assert(tool_names()[3] == "recent_changes"@);
    assert(tool_names()[4] == "event_timeline"@);
    assert(tool_names()[5] == "page_diff"@);
    assert(tool_names()[6] == "recent_activity"@);
    assert(tool_names()[7] == "list_merged_prs"@);
    assert(tool_names()[8] == "list_linear_issues"@);
    assert(tool_names()[9] == "list_slack_activity"@);
}

/// The feed of sources since a start and up to an end, out of what the services replied.
pub open spec fn feed_for(
    start: Timestamp,
    end: Option<Timestamp>,
    sources: Seq<Seq<char>>,
    held: Credentials,
    replies: Replies,
) -> JsonView {
    feed_json(
        start,
        before_end(gathered(plan_of(sources, held), replies, start), end),
        plan_of(sources, held).errors,
    )
}

/// The tool for one live source lists items of that source alone.
pub proof fn law_live_tool_lists_its_source(
    start: Timestamp,
    end: Option<Timestamp>,
    held: Credentials,
    replies: Replies,
    kind: Seq<char>,
    i: int,
)
    requires
        kind == "pr"@ || kind == "linear"@ || kind == "slack"@,
        0 <= i < items_of(
            field(feed_for(start, end, seq![kind], held, replies), "items"@),
        ).len(),
    ensures
        text_value(
            field(
                items_of(field(feed_for(start, end, seq![kind], held, replies), "items"@))[i],
                "kind"@,
            ),
        ) == Some(kind),
{
    let plan = plan_of(seq![kind], held);
    let all = gathered(plan, replies, start);
    let kept = before_end(all, end);
    lemma_feed_items(start, kept, plan.errors);
    let feed = in_time_order(kept);
    law_feed_keeps_items(kept);
    law_feed_items_were_gathered(kept, i);
    let k = choose|k: int| 0 <= k < kept.len() && kept[k] == feed[i];
    law_feed_ends_at_end(all, end, k);
    let j = choose|j: int| 0 <= j < all.len() && all[j] == feed[i];
    law_feed_holds_what_was_asked_for(seq![kind], held, replies, start, j);
    reveal_strlit("pr");
    reveal_strlit("release");
    reveal_strlit("linear");
    reveal_strlit("slack");
    reveal_strlit("github");
    assert("pr"@.len() == 2);
    assert("release"@.len() == 7);
    assert("linear"@.len() == 6);
    assert("slack"@.len() == 5);
    assert("github"@.len() == 6);
    assert("linear"@[0] == 'l');
    assert("github"@[0] == 'g');
    assert(seq![kind].contains("github"@) ==> kind == "github"@);
    assert(seq![kind].contains("pr"@) ==> kind == "pr"@);
    assert(seq![kind].contains("release"@) ==> kind == "release"@);
    assert(seq![kind].contains("linear"@) ==> kind == "linear"@);
    assert(seq![kind].contains("slack"@) ==> kind == "slack"@);
}

/// The rows of a table are those that were read, and none where it could not be read.
pub proof fn law_unread_table_has_no_rows<T>(rows: Vec<T>)
    ensures
        rows_of(Some(rows)) == rows@,
        rows_of::<T>(None).len() == 0,
{
}

} // verus!
