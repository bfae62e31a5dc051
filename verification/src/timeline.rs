//! Events and revisions over time.
use crate::clock::{bucket_unit, iso, iso_text, unit_for, Timestamp};
use crate::json::{
    append, array_view, field, integer_array, items_of, lemma_array_view, optional_string, put,
    put_text, string_array, string_items, string_or_null, text_at, text_value, Json, JsonView,
};
use crate::page::rows_or_none;
use crate::source::{display_of, source_display};
use crate::order::sorted_distinct;
use crate::tally::{
    labels_of, law_tally_adds_up, law_tally_tells_counts, tally, tally_of, tells_count, total,
};
use crate::text::{chars_of, same, text_of, texts, trim, trimmed};
use vstd::prelude::*;
use vstd::string::*;

verus! {

/// How many characters of a directive are shown as its label.
pub const EXCERPT: usize = 200;

/// An ingested source as an event, with what is known of the directive where it is one.
#[derive(Debug, PartialEq, Eq)]
pub struct TimelineRow {
    pub source_key: String,
    pub kind: Option<String>,
    pub ingested_at: Option<Timestamp>,
    pub occurred_at: Option<Timestamp>,
    pub title: String,
    pub url: String,
    pub actor_slack_id: Option<String>,
    pub actor_name: Option<String>,
    pub directive_body: Option<String>,
    pub target_pages: Option<Vec<String>>,
    pub directive_status: Option<String>,
    pub resulting_revision_ids: Option<Vec<i64>>,
}

/// The start of a directive, without the white space around the directive.
pub open spec fn excerpt_of(body: Seq<char>) -> Seq<char> {
    let cleaned = trimmed(body);
    if cleaned.len() <= EXCERPT {
        cleaned
    } else {
        cleaned.take(EXCERPT as int).push('\u{2026}')
    }
}

/// The excerpt of a directive, where there is one.
pub open spec fn excerpt_or_none(body: Option<String>) -> Option<Seq<char>> {
    match body {
        Some(b) => Some(excerpt_of(b@)),
        None => None,
    }
}

/// The kind of an event: the stored one, or else that of its key.
pub open spec fn kind_of(row: TimelineRow) -> Seq<char> {
    match row.kind {
        Some(k) if k@.len() > 0 => k@,
        _ => display_of(row.source_key@).kind,
    }
}

/// `stored`, or `derived` where nothing is stored.
pub open spec fn stored_or(stored: Seq<char>, derived: Seq<char>) -> Seq<char> {
    if stored.len() == 0 {
        derived
    } else {
        stored
    }
}

/// The label of an event: the words of a directive, else the stored title, else that of its key.
pub open spec fn label_of(row: TimelineRow) -> Seq<char> {
    match row.directive_body {
        Some(b) if kind_of(row) == "directive"@ => excerpt_of(b@),
        _ => stored_or(row.title@, display_of(row.source_key@).label),
    }
}

/// An array of strings, or null where there is none.
pub open spec fn strings_or_null(list: Option<Vec<String>>) -> JsonView {
    match list {
        Some(v) => JsonView::Array(string_items(texts(v@))),
        None => JsonView::Null,
    }
}

/// An array of integers, or null where there is none.
pub open spec fn integers_or_null(list: Option<Vec<i64>>) -> JsonView {
    match list {
        Some(v) => JsonView::Array(v@.map_values(|n: i64| JsonView::Int(n as int))),
        None => JsonView::Null,
    }
}

/// A text as a string, or null where there is none.
pub open spec fn text_or_null(s: Option<Seq<char>>) -> JsonView {
    match s {
        Some(s) => JsonView::Str(s),
        None => JsonView::Null,
    }
}

/// An event.
pub open spec fn event_json(row: TimelineRow) -> JsonView {
    JsonView::Object(
        map![
            "source_key"@ => JsonView::Str(row.source_key@),
            "kind"@ => JsonView::Str(kind_of(row)),
            "label"@ => JsonView::Str(label_of(row)),
            "url"@ => JsonView::Str(stored_or(row.url@, display_of(row.source_key@).url)),
            "occurred_at"@ => JsonView::Str(iso_text(row.occurred_at)),
            "ingested_at"@ => JsonView::Str(iso_text(row.ingested_at)),
            "event_time_estimated"@ => JsonView::Bool(row.occurred_at is None),
            "actor_slack_id"@ => string_or_null(row.actor_slack_id),
            "actor_name"@ => string_or_null(row.actor_name),
            "directive_body"@ => string_or_null(row.directive_body),
            "directive_excerpt"@ => text_or_null(excerpt_or_none(row.directive_body)),
            "target_pages"@ => strings_or_null(row.target_pages),
            "directive_status"@ => string_or_null(row.directive_status),
            "resulting_revision_ids"@ => integers_or_null(row.resulting_revision_ids),
        ],
    )
}

/// The kinds of events.
pub open spec fn event_kinds(rows: Seq<TimelineRow>) -> Seq<Seq<char>> {
    rows.map_values(|row: TimelineRow| kind_of(row))
}

/// Events from `start` to `end`, listed in the order of `shown`.
pub open spec fn events_json(
    start: Timestamp,
    end: Timestamp,
    rows: Seq<TimelineRow>,
    shown: Seq<TimelineRow>,
) -> JsonView {
    JsonView::Object(
        map![
            "since"@ => JsonView::Str(iso_text(Some(start))),
            "until"@ => JsonView::Str(iso_text(Some(end))),
            "event_count"@ => JsonView::Int(rows.len() as int),
            "events_by_kind"@ => JsonView::Object(tally_of(event_kinds(rows))),
            "events"@ => JsonView::Array(shown.map_values(|row: TimelineRow| event_json(row))),
        ],
    )
}

/// The start of a directive.
pub fn excerpt(body: &str) -> (r: String)
    ensures
        r@ == excerpt_of(body@),
{
    let cleaned = trim(body);
    let chars = chars_of(cleaned.as_str());
    if chars.len() <= EXCERPT {
        cleaned
    } else {
        let mut out = text_of(&chars, 0, EXCERPT);
        out.push('\u{2026}');
        out
    }
}

/// `stored`, or `derived` where nothing is stored.
fn prefer(stored: &str, derived: &str) -> (r: String)
    ensures
        r@ == stored_or(stored@, derived@),
{
    if stored.is_empty() {
        derived.to_owned()
    } else {
        stored.to_owned()
    }
}

/// An event, and its kind.
fn event(row: &TimelineRow) -> (r: (Json, String))
    ensures
        r.0@ == event_json(*row),
        r.1@ == kind_of(*row),
{
    let shown = source_display(row.source_key.as_str());
    let kind: String = match &row.kind {
        Some(k) => prefer(k.as_str(), shown.kind.as_str()),
        None => shown.kind,
    };
    let short: Option<String> = match &row.directive_body {
        Some(b) => Some(excerpt(b.as_str())),
        None => None,
    };
    let plain = prefer(row.title.as_str(), shown.label.as_str());
    let label: String = match &short {
        Some(words) => if same(kind.as_str(), "directive") {
            words.clone()
        } else {
            plain
        },
        None => plain,
    };
    let mut fields: Vec<(String, Json)> = Vec::new();
    put_text(&mut fields, "source_key", row.source_key.as_str());
    put_text(&mut fields, "kind", kind.as_str());
    put_text(&mut fields, "label", label.as_str());
    put_text(&mut fields, "url", prefer(row.url.as_str(), shown.url.as_str()).as_str());
    put_text(&mut fields, "occurred_at", iso(row.occurred_at).as_str());
    put_text(&mut fields, "ingested_at", iso(row.ingested_at).as_str());
    put(&mut fields, "event_time_estimated", Json::Bool(row.occurred_at.is_none()));
    put(&mut fields, "actor_slack_id", optional_string(&row.actor_slack_id));
    put(&mut fields, "actor_name", optional_string(&row.actor_name));
    put(&mut fields, "directive_body", optional_string(&row.directive_body));
    put(&mut fields, "directive_excerpt", optional_string(&short));
    put(
        &mut fields,
        "target_pages",
        match &row.target_pages {
            Some(v) => string_array(v),
            None => Json::Null,
        },
    );
    put(&mut fields, "directive_status", optional_string(&row.directive_status));
    put(
        &mut fields,
        "resulting_revision_ids",
        match &row.resulting_revision_ids {
            Some(v) => integer_array(v),
            None => Json::Null,
        },
    );
    (Json::Object(fields), kind)
}

/// Events in the order of their rows, and their kinds.
fn show_events(rows: &Vec<TimelineRow>) -> (r: (Vec<Json>, Vec<String>))
    ensures
        array_view(r.0@) == rows@.map_values(|row: TimelineRow| event_json(row)),
        texts(r.1@) == event_kinds(rows@),
{
    let mut items: Vec<Json> = Vec::new();
    let mut kinds: Vec<String> = Vec::new();
    let mut i: usize = 0;
    proof {
        assert(array_view(items@) =~= rows@.take(0).map_values(
            |row: TimelineRow| event_json(row),
        ));
        assert(texts(kinds@) =~= event_kinds(rows@.take(0)));
    }
    while i < rows.len()
        invariant
            i <= rows@.len(),
            array_view(items@) == rows@.take(i as int).map_values(
                |row: TimelineRow| event_json(row),
            ),
            texts(kinds@) == event_kinds(rows@.take(i as int)),
        decreases rows@.len() - i,
    {
        let ghost before = kinds@;
        let (item, kind) = event(&rows[i]);
        append(&mut items, item);
        kinds.push(kind);
        proof {
            assert(rows@.take(i + 1) =~= rows@.take(i as int).push(rows@[i as int]));
            assert(rows@.take(i + 1).map_values(|row: TimelineRow| event_json(row))
                =~= rows@.take(i as int).map_values(|row: TimelineRow| event_json(row)).push(
                event_json(rows@[i as int]),
            ));
            assert(texts(kinds@) =~= texts(before).push(kind_of(rows@[i as int])));
            assert(texts(kinds@) =~= event_kinds(rows@.take(i + 1)));
        }
        i += 1;
    }
    proof {
        assert(rows@.take(i as int) =~= rows@);
    }
    (items, kinds)
}

/// The report on events and their kinds.
fn events_report(start: Timestamp, end: Timestamp, items: Vec<Json>, kinds: &Vec<String>) -> (r:
    Json)
    ensures
        r@ == JsonView::Object(
            map![
                "since"@ => JsonView::Str(iso_text(Some(start))),
                "until"@ => JsonView::Str(iso_text(Some(end))),
                "event_count"@ => JsonView::Int(kinds@.len() as int),
                "events_by_kind"@ => JsonView::Object(tally_of(texts(kinds@))),
                "events"@ => JsonView::Array(array_view(items@)),
            ],
        ),
{
    let mut fields: Vec<(String, Json)> = Vec::new();
    put_text(&mut fields, "since", iso(Some(start)).as_str());
    put_text(&mut fields, "until", iso(Some(end)).as_str());
    put(&mut fields, "event_count", Json::Int(kinds.len() as i128));
    put(&mut fields, "events_by_kind", tally(kinds));
    put(&mut fields, "events", Json::Array(items));
    Json::Object(fields)
}

/// The events from `start` to `end`, in the order of their rows. `rows` is absent where the
/// tables could not be read, which counts as no events.
pub fn wiki_timeline(start: Timestamp, end: Timestamp, rows: Option<&Vec<TimelineRow>>) -> (r: Json)
    ensures
        r@ == events_json(start, end, rows_or_none(rows), rows_or_none(rows)),
{
    let none: Vec<TimelineRow> = Vec::new();
    let rows = match rows {
        Some(rows) => rows,
        None => &none,
    };
    let (items, kinds) = show_events(rows);
    proof {
        assert(none@ =~= Seq::empty());
        assert(texts(kinds@).len() == kinds@.len());
    }
    events_report(start, end, items, &kinds)
}

/// The events from `start` to `end`, from oldest to newest, of rows that go from newest to
/// oldest. `rows` is absent where the tables could not be read, which counts as no events.
pub fn event_timeline(
    start: Timestamp,
    end: Timestamp,
    rows: Option<&Vec<TimelineRow>>,
) -> (r: Json)
    ensures
        r@ == events_json(start, end, rows_or_none(rows), rows_or_none(rows).reverse()),
{
    let none: Vec<TimelineRow> = Vec::new();
    let rows = match rows {
        Some(rows) => rows,
        None => &none,
    };
    let (items, kinds) = show_events(rows);
    let ghost all = array_view(items@);
    let mut items = items;
    let mut turned: Vec<Json> = Vec::new();
    proof {
        assert(none@ =~= Seq::empty());
        assert(texts(kinds@).len() == kinds@.len());
        lemma_array_view(items@);
        assert(array_view(turned@) =~= all.skip(items@.len() as int).reverse());
    }
    while items.len() > 0
        invariant
            items@.len() <= all.len(),
            array_view(items@) == all.take(items@.len() as int),
            array_view(turned@) == all.skip(items@.len() as int).reverse(),
        decreases items@.len(),
    {
        let ghost before = items@;
        proof {
            lemma_array_view(items@);
        }
        if let Some(item) = items.pop() {
            let ghost n = items@.len() as int;
            proof {
                assert(items@ =~= before.drop_last());
                assert(all.take(n + 1).drop_last() =~= all.take(n));
                assert(item@ == all.take(n + 1)[n]);
            }
            append(&mut turned, item);
            proof {
                assert(all.skip(n).reverse() =~= all.skip(n + 1).reverse().push(all[n]));
            }
        }
    }
    proof {
        assert(all.skip(0).reverse() =~= rows@.reverse().map_values(
            |row: TimelineRow| event_json(row),
        ));
    }
    events_report(start, end, turned, &kinds)
}

/// How many revisions were made in one unit of time.
#[derive(Debug, PartialEq, Eq)]
pub struct BucketRow {
    pub bucket: Option<Timestamp>,
    pub n: i64,
}

/// The revisions of one unit of time.
pub open spec fn bucket_json(row: BucketRow) -> JsonView {
    JsonView::Object(
        map![
            "bucket"@ => JsonView::Str(iso_text(row.bucket)),
            "count"@ => JsonView::Int(row.n as int),
        ],
    )
}

/// The revisions of all units of time.
pub open spec fn sum_of(rows: Seq<BucketRow>) -> int
    decreases rows.len(),
{
    if rows.len() == 0 {
        0
    } else {
        sum_of(rows.drop_last()) + rows.last().n
    }
}

/// The revisions from `start` to `end`, and how many there were before.
pub open spec fn revisions_timeline_json(
    start: Timestamp,
    end: Timestamp,
    baseline: i64,
    rows: Seq<BucketRow>,
) -> JsonView {
    JsonView::Object(
        map![
            "since"@ => JsonView::Str(iso_text(Some(start))),
            "until"@ => JsonView::Str(iso_text(Some(end))),
            "unit"@ => JsonView::Str(unit_for(end.unix_nanos() - start.unix_nanos())),
            "baseline"@ => JsonView::Int(baseline as int),
            "total_in_window"@ => JsonView::Int(sum_of(rows)),
            "buckets"@ => JsonView::Array(rows.map_values(|row: BucketRow| bucket_json(row))),
        ],
    )
}

/// The revisions from `start` to `end`, counted by the unit that suits the window, and how many
/// there were before. `rows` is absent where the table could not be read, which counts as no
/// revisions.
pub fn wiki_revisions_timeline(
    start: Timestamp,
    end: Timestamp,
    baseline: i64,
    rows: Option<&Vec<BucketRow>>,
) -> (r: Json)
    requires
        start.valid(),
        end.valid(),
    ensures
        r@ == revisions_timeline_json(start, end, baseline, rows_or_none(rows)),
{
    let none: Vec<BucketRow> = Vec::new();
    let rows = match rows {
        Some(rows) => rows,
        None => &none,
    };
    let mut items: Vec<Json> = Vec::new();
    let mut total: i128 = 0;
    let mut i: usize = 0;
    proof {
        assert(none@ =~= Seq::empty());
        assert(array_view(items@) =~= rows@.take(0).map_values(|row: BucketRow| bucket_json(row)));
    }
    while i < rows.len()
        invariant
            i <= rows@.len(),
            array_view(items@) == rows@.take(i as int).map_values(
                |row: BucketRow| bucket_json(row),
            ),
            total == sum_of(rows@.take(i as int)),
            -0x8000_0000_0000_0000 * i <= total <= 0x8000_0000_0000_0000 * i,
        decreases rows@.len() - i,
    {
        let row = &rows[i];
        let mut fields: Vec<(String, Json)> = Vec::new();
        put_text(&mut fields, "bucket", iso(row.bucket).as_str());
        put(&mut fields, "count", Json::Int(row.n as i128));
        append(&mut items, Json::Object(fields));
        proof {
            assert(rows@.take(i + 1).drop_last() =~= rows@.take(i as int));
            assert(rows@.take(i + 1).map_values(|row: BucketRow| bucket_json(row))
                =~= rows@.take(i as int).map_values(|row: BucketRow| bucket_json(row)).push(
                bucket_json(rows@[i as int]),
            ));
        }
        total = total + row.n as i128;
        i += 1;
    }
    proof {
        assert(rows@.take(i as int) =~= rows@);
    }
    let mut fields: Vec<(String, Json)> = Vec::new();
    put_text(&mut fields, "since", iso(Some(start)).as_str());
    put_text(&mut fields, "until", iso(Some(end)).as_str());
    put_text(&mut fields, "unit", bucket_unit(&start, &end));
    put(&mut fields, "baseline", Json::Int(baseline as i128));
    put(&mut fields, "total_in_window", Json::Int(total));
    put(&mut fields, "buckets", Json::Array(items));
    Json::Object(fields)
}

/// The counts of events by kind add up to the number of events.
pub proof fn law_events_are_counted(rows: Seq<TimelineRow>)
    ensures
        total(sorted_distinct(event_kinds(rows)), event_kinds(rows)) == rows.len(),
{
    law_tally_adds_up(event_kinds(rows));
}

/// When an event happened, or else when it was taken in.
pub open spec fn event_time(row: TimelineRow) -> Option<Timestamp> {
    match row.occurred_at {
        Some(t) => Some(t),
        None => row.ingested_at,
    }
}

/// Whether an event is not later than another, where both have a time.
pub open spec fn not_later(a: TimelineRow, b: TimelineRow) -> bool {
    match (event_time(a), event_time(b)) {
        (Some(a), Some(b)) => a.unix_nanos() <= b.unix_nanos(),
        _ => true,
    }
}

/// Out of rows that go from newest to oldest, the feed that goes from oldest to newest lists an
/// event for each, and no event is later than one behind it.
pub proof fn law_event_timeline_is_oldest_first(
    start: Timestamp,
    end: Timestamp,
    rows: Seq<TimelineRow>,
)
    requires
        forall|i: int, j: int|
            0 <= i < j < rows.len() ==> not_later(#[trigger] rows[j], #[trigger] rows[i]),
    ensures
        ({
            let shown = rows.reverse();
            let events = items_of(
                field(events_json(start, end, rows, shown), "events"@),
            );
            &&& events.len() == shown.len() == rows.len()
            &&& forall|i: int| 0 <= i < events.len() ==> #[trigger] events[i] == event_json(shown[i])
            &&& forall|i: int, j: int|
                0 <= i < j < shown.len() ==> not_later(#[trigger] shown[i], #[trigger] shown[j])
        }),
{
    let shown = rows.reverse();
    assert forall|i: int, j: int| 0 <= i < j < shown.len() implies not_later(
        #[trigger] shown[i],
        #[trigger] shown[j],
    ) by {
        assert(shown[i] == rows[rows.len() - 1 - i]);
        assert(shown[j] == rows[rows.len() - 1 - j]);
    }
}

/// The feed that goes from oldest to newest says what the feed in the order of the rows says, with
/// the same events the other way round.
pub proof fn law_feeds_agree(
    start: Timestamp,
    end: Timestamp,
    rows: Seq<TimelineRow>,
    name: Seq<char>,
)
    ensures
        ({
            let listed = events_json(start, end, rows, rows);
            let turned = events_json(start, end, rows, rows.reverse());
            &&& items_of(field(turned, "events"@)) == items_of(field(listed, "events"@)).reverse()
            &&& name != "events"@ ==> field(turned, name) == field(listed, name)
        }),
{
    let listed = events_json(start, end, rows, rows);
    let turned = events_json(start, end, rows, rows.reverse());
    assert(items_of(field(turned, "events"@)) =~= items_of(field(listed, "events"@)).reverse());
}

proof fn lemma_event_fields(row: TimelineRow)
    ensures
        ({
            let e = event_json(row);
            &&& field(e, "source_key"@) == Some(JsonView::Str(row.source_key@))
            &&& field(e, "kind"@) == Some(JsonView::Str(kind_of(row)))
            &&& field(e, "label"@) == Some(JsonView::Str(label_of(row)))
            &&& field(e, "url"@) == Some(
                JsonView::Str(stored_or(row.url@, display_of(row.source_key@).url)),
            )
            &&& field(e, "occurred_at"@) == Some(JsonView::Str(iso_text(row.occurred_at)))
            &&& field(e, "ingested_at"@) == Some(JsonView::Str(iso_text(row.ingested_at)))
            &&& field(e, "event_time_estimated"@) == Some(JsonView::Bool(row.occurred_at is None))
            &&& field(e, "actor_slack_id"@) == Some(string_or_null(row.actor_slack_id))
            &&& field(e, "actor_name"@) == Some(string_or_null(row.actor_name))
            &&& field(e, "directive_body"@) == Some(string_or_null(row.directive_body))
            &&& field(e, "directive_excerpt"@) == Some(
                text_or_null(excerpt_or_none(row.directive_body)),
            )
            &&& field(e, "target_pages"@) == Some(strings_or_null(row.target_pages))
            &&& field(e, "directive_status"@) == Some(string_or_null(row.directive_status))
            &&& field(e, "resulting_revision_ids"@) == Some(
                integers_or_null(row.resulting_revision_ids),
            )
        }),
{
    reveal_strlit("source_key");
    reveal_strlit("kind");
    reveal_strlit("label");
    reveal_strlit("url");
    reveal_strlit("occurred_at");
    reveal_strlit("ingested_at");
    reveal_strlit("event_time_estimated");
    reveal_strlit("actor_slack_id");
    reveal_strlit("actor_name");
    reveal_strlit("directive_body");
    reveal_strlit("directive_excerpt");
    reveal_strlit("target_pages");
    reveal_strlit("directive_status");
    reveal_strlit("resulting_revision_ids");
    assert("source_key"@.len() == 10);
    assert("kind"@.len() == 4);
    assert("label"@.len() == 5);
    assert("url"@.len() == 3);
    assert("occurred_at"@.len() == 11);
    assert("ingested_at"@.len() == 11);
    assert("event_time_estimated"@.len() == 20);
    assert("actor_slack_id"@.len() == 14);
    assert("actor_name"@.len() == 10);
    assert("directive_body"@.len() == 14);
    assert("directive_excerpt"@.len() == 17);
    assert("target_pages"@.len() == 12);
    assert("directive_status"@.len() == 16);
    assert("resulting_revision_ids"@.len() == 22);
    assert("source_key"@[0] == 's');
    assert("actor_name"@[0] == 'a');
    assert("occurred_at"@[0] == 'o');
    assert("ingested_at"@[0] == 'i');
    assert("actor_slack_id"@[0] == 'a');
    assert("directive_body"@[0] == 'd');
}

/// The kind, the label and the link of an event. What is stored is shown wherever anything is, and
/// what the key of the source says only where nothing is; a directive that has words is labelled by
/// these, and no other event is.
pub proof fn law_event_shows_what_is_stored(row: TimelineRow)
    ensures
        ({
            let e = event_json(row);
            let shown = display_of(row.source_key@);
            let kind = text_value(field(e, "kind"@));
            let label = field(e, "label"@);
            &&& row.kind matches Some(k) ==> k@.len() > 0 ==> kind == Some(k@)
            &&& row.kind matches Some(k) ==> k@.len() == 0 ==> kind == Some(shown.kind)
            &&& row.kind is None ==> kind == Some(shown.kind)
            &&& row.directive_body is None && row.title@.len() > 0 ==> label == Some(
                JsonView::Str(row.title@),
            )
            &&& row.directive_body is None && row.title@.len() == 0 ==> label == Some(
                JsonView::Str(shown.label),
            )
            &&& kind != Some("directive"@) && row.title@.len() > 0 ==> label == Some(
                JsonView::Str(row.title@),
            )
            &&& kind != Some("directive"@) && row.title@.len() == 0 ==> label == Some(
                JsonView::Str(shown.label),
            )
            &&& kind == Some("directive"@) && row.directive_body is Some ==> label == field(
                e,
                "directive_excerpt"@,
            )
            &&& row.url@.len() > 0 ==> field(e, "url"@) == Some(JsonView::Str(row.url@))
            &&& row.url@.len() == 0 ==> field(e, "url"@) == Some(JsonView::Str(shown.url))
        }),
{
    lemma_event_fields(row);
}

/// The excerpt of a directive is its words without the white space around them: all of them up to
/// two hundred characters, else the first two hundred and an ellipsis.
pub proof fn law_excerpt_is_cut(row: TimelineRow, body: Seq<char>)
    ensures
        trimmed(body).len() <= 200 ==> excerpt_of(body) == trimmed(body),
        trimmed(body).len() > 200 ==> {
            &&& excerpt_of(body).len() == 201
            &&& excerpt_of(body).take(200) == trimmed(body).take(200)
            &&& excerpt_of(body)[200] == '\u{2026}'
        },
        row.directive_body matches Some(b) ==> field(event_json(row), "directive_excerpt"@) == Some(
            JsonView::Str(excerpt_of(b@)),
        ),
        row.directive_body is None ==> field(event_json(row), "directive_excerpt"@) == Some(
            JsonView::Null,
        ),
{
    lemma_event_fields(row);
    if trimmed(body).len() > 200 {
        assert(excerpt_of(body).take(200) =~= trimmed(body).take(200));
    }
}

/// An event tells its source, when it happened and when it was taken in, whether the first is not
/// known, and all that is known of its directive; what is not known of the directive is null.
pub proof fn law_event_tells_all(row: TimelineRow)
    ensures
        ({
            let e = event_json(row);
            &&& field(e, "source_key"@) == Some(JsonView::Str(row.source_key@))
            &&& field(e, "occurred_at"@) == Some(JsonView::Str(iso_text(row.occurred_at)))
            &&& field(e, "ingested_at"@) == Some(JsonView::Str(iso_text(row.ingested_at)))
            &&& field(e, "event_time_estimated"@) == Some(JsonView::Bool(row.occurred_at is None))
            &&& row.actor_slack_id matches Some(s) ==> field(e, "actor_slack_id"@) == Some(
                JsonView::Str(s@),
            )
            &&& row.actor_slack_id is None ==> field(e, "actor_slack_id"@) == Some(JsonView::Null)
            &&& row.actor_name matches Some(s) ==> field(e, "actor_name"@) == Some(
                JsonView::Str(s@),
            )
            &&& row.actor_name is None ==> field(e, "actor_name"@) == Some(JsonView::Null)
            &&& row.directive_body matches Some(s) ==> field(e, "directive_body"@) == Some(
                JsonView::Str(s@),
            )
            &&& row.directive_body is None ==> field(e, "directive_body"@) == Some(JsonView::Null)
            &&& row.directive_status matches Some(s) ==> field(e, "directive_status"@) == Some(
                JsonView::Str(s@),
            )
            &&& row.directive_status is None ==> field(e, "directive_status"@) == Some(
                JsonView::Null,
            )
            &&& row.target_pages is None ==> field(e, "target_pages"@) == Some(JsonView::Null)
            &&& row.resulting_revision_ids is None ==> field(e, "resulting_revision_ids"@) == Some(
                JsonView::Null,
            )
        }),
{
    lemma_event_fields(row);
}

/// An event lists the pages that its directive is aimed at and the revisions that came of it, all of
/// them and in their order.
pub proof fn law_event_lists_targets(row: TimelineRow, i: int)
    ensures
        ({
            let e = event_json(row);
            &&& row.target_pages matches Some(v) ==> {
                let items = items_of(field(e, "target_pages"@));
                &&& items.len() == v@.len()
                &&& 0 <= i < v@.len() ==> items[i] == JsonView::Str(v@[i]@)
            }
            &&& row.resulting_revision_ids matches Some(v) ==> {
                let items = items_of(field(e, "resulting_revision_ids"@));
                &&& items.len() == v@.len()
                &&& 0 <= i < v@.len() ==> items[i] == JsonView::Int(v@[i] as int)
            }
        }),
{
    lemma_event_fields(row);
}

proof fn lemma_events_fields(
    start: Timestamp,
    end: Timestamp,
    rows: Seq<TimelineRow>,
    shown: Seq<TimelineRow>,
)
    ensures
        ({
            let r = events_json(start, end, rows, shown);
            &&& field(r, "since"@) == Some(JsonView::Str(iso_text(Some(start))))
            &&& field(r, "until"@) == Some(JsonView::Str(iso_text(Some(end))))
            &&& field(r, "event_count"@) == Some(JsonView::Int(rows.len() as int))
            &&& field(r, "events_by_kind"@) == Some(JsonView::Object(tally_of(event_kinds(rows))))
            &&& field(r, "events"@) == Some(
                JsonView::Array(shown.map_values(|row: TimelineRow| event_json(row))),
            )
        }),
{
    reveal_strlit("since");
    reveal_strlit("until");
    reveal_strlit("event_count");
    reveal_strlit("events_by_kind");
    reveal_strlit("events");
    assert("since"@.len() == 5);
    assert("until"@.len() == 5);
    assert("event_count"@.len() == 11);
    assert("events_by_kind"@.len() == 14);
    assert("events"@.len() == 6);
    assert("since"@[0] == 's');
    assert("until"@[0] == 'u');
}

/// A timeline tells its window, lists an event for each row in the order of the rows, and counts
/// them: how many there are, and how many there are of each kind that it lists.
pub proof fn law_timeline_lists_events(
    start: Timestamp,
    end: Timestamp,
    rows: Seq<TimelineRow>,
    i: int,
    x: Seq<char>,
)
    ensures
        ({
            let r = events_json(start, end, rows, rows);
            let events = items_of(field(r, "events"@));
            &&& field(r, "since"@) == Some(JsonView::Str(iso_text(Some(start))))
            &&& field(r, "until"@) == Some(JsonView::Str(iso_text(Some(end))))
            &&& events.len() == rows.len()
            &&& field(r, "event_count"@) == Some(JsonView::Int(rows.len() as int))
            &&& 0 <= i < rows.len() ==> text_value(field(events[i], "source_key"@)) == Some(
                rows[i].source_key@,
            )
            &&& tells_count(field(r, "events_by_kind"@), labels_of(events, "kind"@), x)
        }),
{
    lemma_events_fields(start, end, rows, rows);
    let events = items_of(field(events_json(start, end, rows, rows), "events"@));
    assert forall|k: int| 0 <= k < rows.len() implies text_at(#[trigger] events[k], "kind"@)
        == kind_of(rows[k]) by {
        lemma_event_fields(rows[k]);
    }
    assert(labels_of(events, "kind"@) =~= event_kinds(rows));
    law_tally_tells_counts(event_kinds(rows), x);
    if 0 <= i < rows.len() {
        lemma_event_fields(rows[i]);
    }
}

/// The revisions of units of time one behind the other are those of the first and those of the
/// rest, and the revisions of one unit are its number.
pub proof fn law_revisions_add_up(a: Seq<BucketRow>, b: Seq<BucketRow>, row: BucketRow)
    ensures
        sum_of(a + b) == sum_of(a) + sum_of(b),
        sum_of(seq![row]) == row.n,
        sum_of(Seq::empty()) == 0,
    decreases b.len(),
{
    assert(seq![row].drop_last() =~= Seq::empty());
    assert(sum_of(seq![row].drop_last()) == 0);
    if b.len() == 0 {
        assert(a + b =~= a);
    } else {
        assert((a + b).drop_last() =~= a + b.drop_last());
        law_revisions_add_up(a, b.drop_last(), row);
    }
}

/// A report on revisions tells its window and how many there were before, lists each unit of time
/// with its number, in their order, and tells their sum.
pub proof fn law_revisions_are_reported(
    start: Timestamp,
    end: Timestamp,
    baseline: i64,
    rows: Seq<BucketRow>,
    i: int,
)
    ensures
        ({
            let r = revisions_timeline_json(start, end, baseline, rows);
            let buckets = items_of(field(r, "buckets"@));
            &&& field(r, "since"@) == Some(JsonView::Str(iso_text(Some(start))))
            &&& field(r, "until"@) == Some(JsonView::Str(iso_text(Some(end))))
            &&& field(r, "unit"@) == Some(
                JsonView::Str(unit_for(end.unix_nanos() - start.unix_nanos())),
            )
            &&& field(r, "baseline"@) == Some(JsonView::Int(baseline as int))
            &&& field(r, "total_in_window"@) == Some(JsonView::Int(sum_of(rows)))
            &&& buckets.len() == rows.len()
            &&& 0 <= i < rows.len() ==> {
                &&& field(buckets[i], "bucket"@) == Some(JsonView::Str(iso_text(rows[i].bucket)))
                &&& field(buckets[i], "count"@) == Some(JsonView::Int(rows[i].n as int))
            }
        }),
{
    reveal_strlit("since");
    reveal_strlit("until");
    reveal_strlit("unit");
    reveal_strlit("baseline");
    reveal_strlit("total_in_window");
    reveal_strlit("buckets");
    reveal_strlit("bucket");
    reveal_strlit("count");
    assert("since"@.len() == 5);
    assert("until"@.len() == 5);
    assert("unit"@.len() == 4);
    assert("baseline"@.len() == 8);
    assert("total_in_window"@.len() == 15);
    assert("buckets"@.len() == 7);
    assert("bucket"@.len() == 6);
    assert("count"@.len() == 5);
    assert("since"@[0] == 's');
    assert("until"@[0] == 'u');
    assert("count"@[0] == 'c');
}

} // verus!
