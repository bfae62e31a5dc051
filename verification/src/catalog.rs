//! The catalog of tools that the relay offers.
use crate::json::{
    append, array_of_one, array_view, object_view, put, put_text, string, Json, JsonView,
};
use vstd::prelude::*;

verus! {

/// The schema of a value of a type.
pub open spec fn typed(kind: Seq<char>) -> JsonView {
    JsonView::Object(map!["type"@ => JsonView::Str(kind)])
}

/// The schema of a value of a type, with a description.
pub open spec fn described(kind: Seq<char>, description: Seq<char>) -> JsonView {
    JsonView::Object(
        map!["type"@ => JsonView::Str(kind), "description"@ => JsonView::Str(description)],
    )
}

/// The schema of an object.
pub open spec fn schema(properties: Map<Seq<char>, JsonView>) -> JsonView {
    JsonView::Object(
        map!["type"@ => JsonView::Str("object"@), "properties"@ => JsonView::Object(properties)],
    )
}

/// The schema of an object that must have the field `required`.
pub open spec fn strict_schema(
    properties: Map<Seq<char>, JsonView>,
    required: Seq<char>,
) -> JsonView {
    JsonView::Object(
        map![
            "type"@ => JsonView::Str("object"@),
            "properties"@ => JsonView::Object(properties),
            "required"@ => JsonView::Array(seq![JsonView::Str(required)]),
        ],
    )
}

/// An entry of the catalog.
pub open spec fn tool(name: Seq<char>, description: Seq<char>, input: JsonView) -> JsonView {
    JsonView::Object(
        map![
            "name"@ => JsonView::Str(name),
            "description"@ => JsonView::Str(description),
            "inputSchema"@ => input,
        ],
    )
}

/// The fields that state a window.
pub open spec fn window_fields() -> Map<Seq<char>, JsonView> {
    map!["days"@ => typed("number"@), "since"@ => typed("string"@), "until"@ => typed("string"@)]
}

/// What `search_wiki` does.
pub const ABOUT_SEARCH: &'static str = "Full-text search the Darkbloom/Centaur knowledge base. Returns matching wiki pages (title, type, snippet, url).";

/// What `read_page` does.
pub const ABOUT_READ: &'static str = "Read a single wiki page's full markdown body by document_id (e.g. 'wiki:entity:coordinator-deployment').";

/// What `wiki_graph` does.
pub const ABOUT_GRAPH: &'static str = "The full wiki knowledge graph: every page (goal/project/entity/topic) as a node, with [[wikilink]] edges, degree, and backlinks. Use to list all pages or understand structure.";

/// What `recent_changes` does.
pub const ABOUT_CHANGES: &'static str = "Pages changed and sources ingested in a recent window. Args: days (number) OR since/until (ISO timestamps).";

/// What `event_timeline` does.
pub const ABOUT_TIMELINE: &'static str = "Cross-stream event feed (PRs, Linear issues, provider Slack, releases, directives, coordinator telemetry, news) in a window, oldest->newest. Args: days OR since/until.";

/// What `page_diff` does.
pub const ABOUT_DIFF: &'static str = "Unified diff of a wiki page's body over a window (what changed). Args: id (document_id), plus days OR since/until.";

/// What `recent_activity` does.
pub const ABOUT_ACTIVITY: &'static str = "LIVE product-lifecycle feed: what actually happened across GitHub (merged PRs + releases), Linear (issues + state), and provider/internal Slack in a recent window, oldest->newest. Reads the SAME live sources the Centaur agent reads — NOT the wiki's synthesized/lagging state. Use this for 'what happened in the last 24h / this week'. Args: days (number, default 1) OR since/until (ISO); optional sources (array subset of [\"github\",\"pr\",\"release\",\"linear\",\"slack\"]).";

/// What `list_merged_prs` does.
pub const ABOUT_PRS: &'static str = "LIVE merged GitHub pull requests (with bodies) across the tracked repos in a window. Args: days OR since/until.";

/// What `list_linear_issues` does.
pub const ABOUT_ISSUES: &'static str = "LIVE Linear issues updated in a window (identifier, title, state, assignee, url). Args: days OR since/until.";

/// What `list_slack_activity` does.
pub const ABOUT_SLACK: &'static str = "LIVE Slack messages from the tracked provider + internal channels in a window (channel history). Args: days OR since/until.";

/// The schema of a list of sources.
pub open spec fn sources_schema() -> JsonView {
    JsonView::Object(
        map![
            "type"@ => JsonView::Str("array"@),
            "items"@ => typed("string"@),
            "description"@ => JsonView::Str(
                "Optional subset: github, pr, release, linear, slack. Default: all."@,
            ),
        ],
    )
}

/// The catalog of tools.
pub open spec fn catalog() -> Seq<JsonView> {
    seq![
        tool(
            "search_wiki"@,
            ABOUT_SEARCH@,
            strict_schema(
                map![
                    "q"@ => described("string"@, "Search query."@),
                    "limit"@ => described("integer"@, "Max results (default 20)."@),
                ],
                "q"@,
            ),
        ),
        tool(
            "read_page"@,
            ABOUT_READ@,
            strict_schema(
                map![
                    "document_id"@ => described(
                        "string"@,
                        "The wiki page id, e.g. wiki:topic:release-process."@,
                    ),
                ],
                "document_id"@,
            ),
        ),
        tool("wiki_graph"@, ABOUT_GRAPH@, schema(Map::empty())),
        tool(
            "recent_changes"@,
            ABOUT_CHANGES@,
            schema(
                map![
                    "days"@ => described("number"@, "Look back this many days (e.g. 7)."@),
                    "since"@ => described("string"@, "ISO start time (alternative to days)."@),
                    "until"@ => described("string"@, "ISO end time (optional)."@),
                ],
            ),
        ),
        tool("event_timeline"@, ABOUT_TIMELINE@, schema(window_fields())),
        tool(
            "page_diff"@,
            ABOUT_DIFF@,
            strict_schema(
                map![
                    "id"@ => described("string"@, "The wiki page document_id."@),
                    "days"@ => typed("number"@),
                    "since"@ => typed("string"@),
                    "until"@ => typed("string"@),
                ],
                "id"@,
            ),
        ),
        tool(
            "recent_activity"@,
            ABOUT_ACTIVITY@,
            schema(
                map![
                    "days"@ => described("number"@, "Look back this many days (default 1)."@),
                    "since"@ => described("string"@, "ISO start (alternative to days)."@),
                    "until"@ => described("string"@, "ISO end (optional)."@),
                    "sources"@ => sources_schema(),
                ],
            ),
        ),
        tool("list_merged_prs"@, ABOUT_PRS@, schema(window_fields())),
        tool("list_linear_issues"@, ABOUT_ISSUES@, schema(window_fields())),
        tool("list_slack_activity"@, ABOUT_SLACK@, schema(window_fields())),
    ]
}

/// Sets the field `name` to the schema of a value of a type.
fn put_typed(fields: &mut Vec<(String, Json)>, name: &str, kind: &str)
    ensures
        object_view(final(fields)@) == object_view(old(fields)@).insert(
            name@,
            typed(kind@),
        ),
{
    let mut inner: Vec<(String, Json)> = Vec::new();
    put_text(&mut inner, "type", kind);
    put(fields, name, Json::Object(inner));
}

/// Sets the field `name` to the schema of a value of a type, with a description.
fn put_described(fields: &mut Vec<(String, Json)>, name: &str, kind: &str, description: &str)
    ensures
        object_view(final(fields)@) == object_view(old(fields)@).insert(
            name@,
            described(kind@, description@),
        ),
{
    let mut inner: Vec<(String, Json)> = Vec::new();
    put_text(&mut inner, "type", kind);
    put_text(&mut inner, "description", description);
    put(fields, name, Json::Object(inner));
}

/// The schema of an object.
fn object_schema(properties: Vec<(String, Json)>) -> (r: Json)
    ensures
        r@ == schema(object_view(properties@)),
{
    let mut fields: Vec<(String, Json)> = Vec::new();
    put_text(&mut fields, "type", "object");
    put(&mut fields, "properties", Json::Object(properties));
    Json::Object(fields)
}

/// The schema of an object that must have the field `required`.
fn strict_object_schema(properties: Vec<(String, Json)>, required: &str) -> (r: Json)
    ensures
        r@ == strict_schema(object_view(properties@), required@),
{
    let mut fields: Vec<(String, Json)> = Vec::new();
    put_text(&mut fields, "type", "object");
    put(&mut fields, "properties", Json::Object(properties));
    put(&mut fields, "required", array_of_one(string(required)));
    Json::Object(fields)
}

/// The schema of a window.
fn window_schema() -> (r: Json)
    ensures
        r@ == schema(window_fields()),
{
    let mut fields: Vec<(String, Json)> = Vec::new();
    put_typed(&mut fields, "days", "number");
    put_typed(&mut fields, "since", "string");
    put_typed(&mut fields, "until", "string");
    object_schema(fields)
}

/// Appends an entry of the catalog.
fn add_tool(list: &mut Vec<Json>, name: &str, description: &str, input: Json)
    ensures
        array_view(final(list)@) == array_view(old(list)@).push(tool(name@, description@, input@)),
{
    let mut fields: Vec<(String, Json)> = Vec::new();
    put_text(&mut fields, "name", name);
    put_text(&mut fields, "description", description);
    put(&mut fields, "inputSchema", input);
    append(list, Json::Object(fields));
}

/// Appends the entries of the tools that read the wiki.
fn add_wiki_tools(list: &mut Vec<Json>)
    ensures
        array_view(final(list)@) == array_view(old(list)@) + catalog().take(6),
{
    let ghost before = array_view(list@);
    let mut search: Vec<(String, Json)> = Vec::new();
    put_described(&mut search, "q", "string", "Search query.");
    put_described(&mut search, "limit", "integer", "Max results (default 20).");
    add_tool(list, "search_wiki", ABOUT_SEARCH, strict_object_schema(search, "q"));
    let mut read: Vec<(String, Json)> = Vec::new();
    put_described(
        &mut read,
        "document_id",
        "string",
        "The wiki page id, e.g. wiki:topic:release-process.",
    );
    add_tool(list, "read_page", ABOUT_READ, strict_object_schema(read, "document_id"));
    add_tool(list, "wiki_graph", ABOUT_GRAPH, object_schema(Vec::new()));
    let mut changes: Vec<(String, Json)> = Vec::new();
    put_described(&mut changes, "days", "number", "Look back this many days (e.g. 7).");
    put_described(&mut changes, "since", "string", "ISO start time (alternative to days).");
    put_described(&mut changes, "until", "string", "ISO end time (optional).");
    add_tool(list, "recent_changes", ABOUT_CHANGES, object_schema(changes));
    add_tool(list, "event_timeline", ABOUT_TIMELINE, window_schema());
    let mut diff: Vec<(String, Json)> = Vec::new();
    put_described(&mut diff, "id", "string", "The wiki page document_id.");
    put_typed(&mut diff, "days", "number");
    put_typed(&mut diff, "since", "string");
    put_typed(&mut diff, "until", "string");
    add_tool(list, "page_diff", ABOUT_DIFF, strict_object_schema(diff, "id"));
    proof {
        assert(array_view(list@) =~= before + catalog().take(6));
    }
}

/// Appends the entries of the tools that read live sources.
fn add_live_tools(list: &mut Vec<Json>)
    ensures
        array_view(final(list)@) == array_view(old(list)@) + catalog().skip(6),
{
    let ghost before = array_view(list@);
    let mut item: Vec<(String, Json)> = Vec::new();
    put_text(&mut item, "type", "string");
    let mut sources: Vec<(String, Json)> = Vec::new();
    put_text(&mut sources, "type", "array");
    put(&mut sources, "items", Json::Object(item));
    put_text(
        &mut sources,
        "description",
        "Optional subset: github, pr, release, linear, slack. Default: all.",
    );
    let mut activity: Vec<(String, Json)> = Vec::new();
    put_described(&mut activity, "days", "number", "Look back this many days (default 1).");
    put_described(&mut activity, "since", "string", "ISO start (alternative to days).");
    put_described(&mut activity, "until", "string", "ISO end (optional).");
    put(&mut activity, "sources", Json::Object(sources));
    add_tool(list, "recent_activity", ABOUT_ACTIVITY, object_schema(activity));
    add_tool(list, "list_merged_prs", ABOUT_PRS, window_schema());
    add_tool(list, "list_linear_issues", ABOUT_ISSUES, window_schema());
    add_tool(list, "list_slack_activity", ABOUT_SLACK, window_schema());
    proof {
        assert(array_view(list@) =~= before + catalog().skip(6));
    }
}

/// The catalog of tools.
pub fn mcp_tools() -> (r: Json)
    ensures
        r@ == JsonView::Array(catalog()),
{
    let mut list: Vec<Json> = Vec::new();
    add_wiki_tools(&mut list);
    add_live_tools(&mut list);
    proof {
        assert(array_view(list@) =~= catalog());
    }
    Json::Array(list)
}

} // verus!
