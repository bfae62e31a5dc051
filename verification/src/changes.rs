//! What changed in a window: pages, and the sources that were ingested.
use crate::clock::{iso, iso_text, Timestamp};
use crate::json::{append, array_view, field, items_of, put, put_text, text_at, Json, JsonView};
use crate::page::{rows_or_none, short_type, strip_wiki_prefix};
use crate::source::{display_of, source_display};
use crate::order::sorted_distinct;
use crate::tally::{
    labels_of, law_tally_adds_up, law_tally_tells_counts, tally, tally_of, tells_count, total,
};
use crate::text::texts;
use vstd::prelude::*;
use vstd::string::*;

verus! {

/// A page that changed.
#[derive(Debug, PartialEq, Eq)]
pub struct PageChange {
    pub document_id: String,
    pub source_type: String,
    pub title: String,
    pub url: String,
    pub updated_at: Option<Timestamp>,
}

/// A source that was ingested: when it happened, and when it was read.
#[derive(Debug, PartialEq, Eq)]
pub struct SourceRow {
    pub source_key: String,
    pub ingested_at: Option<Timestamp>,
    pub occurred_at: Option<Timestamp>,
}

/// A page that changed.
pub open spec fn page_change_json(p: PageChange) -> JsonView {
    JsonView::Object(
        map![
            "id"@ => JsonView::Str(p.document_id@),
            "title"@ => JsonView::Str(p.title@),
            "type"@ => JsonView::Str(short_type(p.source_type@)),
            "url"@ => JsonView::Str(p.url@),
            "updated_at"@ => JsonView::Str(iso_text(p.updated_at)),
        ],
    )
}

/// A source that was ingested.
pub open spec fn source_json(s: SourceRow) -> JsonView {
    let shown = display_of(s.source_key@);
    JsonView::Object(
        map![
            "kind"@ => JsonView::Str(shown.kind),
            "label"@ => JsonView::Str(shown.label),
            "url"@ => JsonView::Str(shown.url),
            "occurred_at"@ => JsonView::Str(iso_text(s.occurred_at)),
            "ingested_at"@ => JsonView::Str(iso_text(s.ingested_at)),
        ],
    )
}

/// The short types of pages that changed.
pub open spec fn types_of(pages: Seq<PageChange>) -> Seq<Seq<char>> {
    pages.map_values(|p: PageChange| short_type(p.source_type@))
}

/// The kinds of sources that were ingested.
pub open spec fn kinds_of(sources: Seq<SourceRow>) -> Seq<Seq<char>> {
    sources.map_values(|s: SourceRow| display_of(s.source_key@).kind)
}

/// What changed from `start` to `end`.
pub open spec fn changes_json(
    start: Timestamp,
    end: Timestamp,
    pages: Seq<PageChange>,
    sources: Seq<SourceRow>,
) -> JsonView {
    JsonView::Object(
        map![
            "since"@ => JsonView::Str(iso_text(Some(start))),
            "until"@ => JsonView::Str(iso_text(Some(end))),
            "page_count"@ => JsonView::Int(pages.len() as int),
            "source_count"@ => JsonView::Int(sources.len() as int),
            "pages_by_type"@ => JsonView::Object(tally_of(types_of(pages))),
            "sources_by_kind"@ => JsonView::Object(tally_of(kinds_of(sources))),
            "pages"@ => JsonView::Array(pages.map_values(|p: PageChange| page_change_json(p))),
            "sources"@ => JsonView::Array(sources.map_values(|s: SourceRow| source_json(s))),
        ],
    )
}

/// The pages that changed, and their types.
fn show_pages(pages: &Vec<PageChange>) -> (r: (Vec<Json>, Vec<String>))
    ensures
        array_view(r.0@) == pages@.map_values(|p: PageChange| page_change_json(p)),
        texts(r.1@) == types_of(pages@),
{
    let mut items: Vec<Json> = Vec::new();
    let mut types: Vec<String> = Vec::new();
    let mut i: usize = 0;
    proof {
        assert(array_view(items@) =~= pages@.take(0).map_values(
            |p: PageChange| page_change_json(p),
        ));
        assert(texts(types@) =~= types_of(pages@.take(0)));
    }
    while i < pages.len()
        invariant
            i <= pages@.len(),
            array_view(items@) == pages@.take(i as int).map_values(
                |p: PageChange| page_change_json(p),
            ),
            texts(types@) == types_of(pages@.take(i as int)),
        decreases pages@.len() - i,
    {
        let p = &pages[i];
        let ghost before = types@;
        let short = strip_wiki_prefix(p.source_type.as_str());
        let mut fields: Vec<(String, Json)> = Vec::new();
        put_text(&mut fields, "id", p.document_id.as_str());
        put_text(&mut fields, "title", p.title.as_str());
        put_text(&mut fields, "type", short.as_str());
        put_text(&mut fields, "url", p.url.as_str());
        put_text(&mut fields, "updated_at", iso(p.updated_at).as_str());
        append(&mut items, Json::Object(fields));
        types.push(short);
        proof {
            assert(pages@.take(i + 1) =~= pages@.take(i as int).push(pages@[i as int]));
            assert(pages@.take(i + 1).map_values(|p: PageChange| page_change_json(p))
                =~= pages@.take(i as int).map_values(|p: PageChange| page_change_json(p)).push(
                page_change_json(pages@[i as int]),
            ));
            assert(texts(types@) =~= texts(before).push(
                short_type(pages@[i as int].source_type@),
            ));
            assert(texts(types@) =~= types_of(pages@.take(i + 1)));
        }
        i += 1;
    }
    proof {
        assert(pages@.take(i as int) =~= pages@);
    }
    (items, types)
}

/// The sources that were ingested, and their kinds.
fn show_sources(sources: &Vec<SourceRow>) -> (r: (Vec<Json>, Vec<String>))
    ensures
        array_view(r.0@) == sources@.map_values(|s: SourceRow| source_json(s)),
        texts(r.1@) == kinds_of(sources@),
{
    let mut items: Vec<Json> = Vec::new();
    let mut kinds: Vec<String> = Vec::new();
    let mut i: usize = 0;
    proof {
        assert(array_view(items@) =~= sources@.take(0).map_values(
            |s: SourceRow| source_json(s),
        ));
        assert(texts(kinds@) =~= kinds_of(sources@.take(0)));
    }
    while i < sources.len()
        invariant
            i <= sources@.len(),
            array_view(items@) == sources@.take(i as int).map_values(
                |s: SourceRow| source_json(s),
            ),
            texts(kinds@) == kinds_of(sources@.take(i as int)),
        decreases sources@.len() - i,
    {
        let s = &sources[i];
        let ghost before = kinds@;
        let shown = source_display(s.source_key.as_str());
        let mut fields: Vec<(String, Json)> = Vec::new();
        put_text(&mut fields, "kind", shown.kind.as_str());
        put_text(&mut fields, "label", shown.label.as_str());
        put_text(&mut fields, "url", shown.url.as_str());
        put_text(&mut fields, "occurred_at", iso(s.occurred_at).as_str());
        put_text(&mut fields, "ingested_at", iso(s.ingested_at).as_str());
        append(&mut items, Json::Object(fields));
        kinds.push(shown.kind);
        proof {
            assert(sources@.take(i + 1) =~= sources@.take(i as int).push(sources@[i as int]));
            assert(sources@.take(i + 1).map_values(|s: SourceRow| source_json(s))
                =~= sources@.take(i as int).map_values(|s: SourceRow| source_json(s)).push(
                source_json(sources@[i as int]),
            ));
            assert(texts(kinds@) =~= texts(before).push(
                display_of(sources@[i as int].source_key@).kind,
            ));
            assert(texts(kinds@) =~= kinds_of(sources@.take(i + 1)));
        }
        i += 1;
    }
    proof {
        assert(sources@.take(i as int) =~= sources@);
    }
    (items, kinds)
}

/// What changed from `start` to `end`. `sources` is absent where the table could not be read,
/// which counts as no sources.
pub fn wiki_changes(
    start: Timestamp,
    end: Timestamp,
    pages: &Vec<PageChange>,
    sources: Option<&Vec<SourceRow>>,
) -> (r: Json)
    ensures
        r@ == changes_json(start, end, pages@, rows_or_none(sources)),
{
    let (page_items, types) = show_pages(pages);
    let none: Vec<SourceRow> = Vec::new();
    let rows = match sources {
        Some(rows) => rows,
        None => &none,
    };
    proof {
        assert(rows@ =~= rows_or_none(sources));
    }
    let (source_items, kinds) = show_sources(rows);
    let mut fields: Vec<(String, Json)> = Vec::new();
    put_text(&mut fields, "since", iso(Some(start)).as_str());
    put_text(&mut fields, "until", iso(Some(end)).as_str());
    put(&mut fields, "page_count", Json::Int(pages.len() as i128));
    put(&mut fields, "source_count", Json::Int(rows.len() as i128));
    put(&mut fields, "pages_by_type", tally(&types));
    put(&mut fields, "sources_by_kind", tally(&kinds));
    put(&mut fields, "pages", Json::Array(page_items));
    put(&mut fields, "sources", Json::Array(source_items));
    Json::Object(fields)
}

/// The counts of changed pages by type add up to the number of changed pages, and the counts of
/// sources by kind to the number of sources.
pub proof fn law_changes_are_counted(pages: Seq<PageChange>, sources: Seq<SourceRow>)
    ensures
        total(sorted_distinct(types_of(pages)), types_of(pages)) == pages.len(),
        total(sorted_distinct(kinds_of(sources)), kinds_of(sources)) == sources.len(),
{
    law_tally_adds_up(types_of(pages));
    law_tally_adds_up(kinds_of(sources));
}

/// A report on changes lists every page and every source that it was given, in their order, with
/// what is known of them, and counts them: how many there are, and how many there are of each type
/// of page and each kind of source that it lists.
pub proof fn law_changes_are_listed(
    start: Timestamp,
    end: Timestamp,
    pages: Seq<PageChange>,
    sources: Seq<SourceRow>,
    i: int,
    x: Seq<char>,
)
    ensures
        ({
            let r = changes_json(start, end, pages, sources);
            let page_items = items_of(field(r, "pages"@));
            let source_items = items_of(field(r, "sources"@));
            &&& field(r, "since"@) == Some(JsonView::Str(iso_text(Some(start))))
            &&& field(r, "until"@) == Some(JsonView::Str(iso_text(Some(end))))
            &&& page_items.len() == pages.len()
            &&& source_items.len() == sources.len()
            &&& field(r, "page_count"@) == Some(JsonView::Int(pages.len() as int))
            &&& field(r, "source_count"@) == Some(JsonView::Int(sources.len() as int))
            &&& tells_count(field(r, "pages_by_type"@), labels_of(page_items, "type"@), x)
            &&& tells_count(field(r, "sources_by_kind"@), labels_of(source_items, "kind"@), x)
            &&& 0 <= i < pages.len() ==> {
                let p = pages[i];
                &&& field(page_items[i], "id"@) == Some(JsonView::Str(p.document_id@))
                &&& field(page_items[i], "title"@) == Some(JsonView::Str(p.title@))
                &&& field(page_items[i], "type"@) == Some(
                    JsonView::Str(short_type(p.source_type@)),
                )
                &&& field(page_items[i], "url"@) == Some(JsonView::Str(p.url@))
                &&& field(page_items[i], "updated_at"@) == Some(
                    JsonView::Str(iso_text(p.updated_at)),
                )
            }
            &&& 0 <= i < sources.len() ==> {
                let s = sources[i];
                let shown = display_of(s.source_key@);
                &&& field(source_items[i], "kind"@) == Some(JsonView::Str(shown.kind))
                &&& field(source_items[i], "label"@) == Some(JsonView::Str(shown.label))
                &&& field(source_items[i], "url"@) == Some(JsonView::Str(shown.url))
                &&& field(source_items[i], "occurred_at"@) == Some(
                    JsonView::Str(iso_text(s.occurred_at)),
                )
                &&& field(source_items[i], "ingested_at"@) == Some(
                    JsonView::Str(iso_text(s.ingested_at)),
                )
            }
        }),
{
    lemma_changes_fields(start, end, pages, sources);
    let r = changes_json(start, end, pages, sources);
    let page_items = items_of(field(r, "pages"@));
    let source_items = items_of(field(r, "sources"@));
    assert forall|k: int| 0 <= k < pages.len() implies text_at(#[trigger] page_items[k], "type"@)
        == short_type(pages[k].source_type@) by {
        lemma_page_change_fields(pages[k]);
    }
    assert forall|k: int| 0 <= k < sources.len() implies text_at(
        #[trigger] source_items[k],
        "kind"@,
    ) == display_of(sources[k].source_key@).kind by {
        lemma_source_fields(sources[k]);
    }
    assert(labels_of(page_items, "type"@) =~= types_of(pages));
    assert(labels_of(source_items, "kind"@) =~= kinds_of(sources));
    law_tally_tells_counts(types_of(pages), x);
    law_tally_tells_counts(kinds_of(sources), x);
    if 0 <= i < pages.len() {
        lemma_page_change_fields(pages[i]);
    }
    if 0 <= i < sources.len() {
        lemma_source_fields(sources[i]);
    }
}

proof fn lemma_changes_fields(
    start: Timestamp,
    end: Timestamp,
    pages: Seq<PageChange>,
    sources: Seq<SourceRow>,
)
    ensures
        ({
            let r = changes_json(start, end, pages, sources);
            &&& field(r, "since"@) == Some(JsonView::Str(iso_text(Some(start))))
            &&& field(r, "until"@) == Some(JsonView::Str(iso_text(Some(end))))
            &&& field(r, "page_count"@) == Some(JsonView::Int(pages.len() as int))
            &&& field(r, "source_count"@) == Some(JsonView::Int(sources.len() as int))
            &&& field(r, "pages_by_type"@) == Some(JsonView::Object(tally_of(types_of(pages))))
            &&& field(r, "sources_by_kind"@) == Some(JsonView::Object(tally_of(kinds_of(sources))))
            &&& field(r, "pages"@) == Some(
                JsonView::Array(pages.map_values(|p: PageChange| page_change_json(p))),
            )
            &&& field(r, "sources"@) == Some(
                JsonView::Array(sources.map_values(|s: SourceRow| source_json(s))),
            )
        }),
{
    reveal_strlit("since");
    reveal_strlit("until");
    reveal_strlit("page_count");
    reveal_strlit("source_count");
    reveal_strlit("pages_by_type");
    reveal_strlit("sources_by_kind");
    reveal_strlit("pages");
    reveal_strlit("sources");
    assert("since"@.len() == 5);
    assert("until"@.len() == 5);
    assert("page_count"@.len() == 10);
    assert("source_count"@.len() == 12);
    assert("pages_by_type"@.len() == 13);
    assert("sources_by_kind"@.len() == 15);
    assert("pages"@.len() == 5);
    assert("sources"@.len() == 7);
    assert("since"@[0] == 's');
    assert("until"@[0] == 'u');
    assert("pages"@[0] == 'p');
}

proof fn lemma_page_change_fields(p: PageChange)
    ensures
        ({
            let item = page_change_json(p);
            &&& field(item, "id"@) == Some(JsonView::Str(p.document_id@))
            &&& field(item, "title"@) == Some(JsonView::Str(p.title@))
            &&& field(item, "type"@) == Some(JsonView::Str(short_type(p.source_type@)))
            &&& field(item, "url"@) == Some(JsonView::Str(p.url@))
            &&& field(item, "updated_at"@) == Some(JsonView::Str(iso_text(p.updated_at)))
        }),
{
    reveal_strlit("id");
    reveal_strlit("title");
    reveal_strlit("type");
    reveal_strlit("url");
    reveal_strlit("updated_at");
    assert("id"@.len() == 2);
    assert("title"@.len() == 5);
    assert("type"@.len() == 4);
    assert("url"@.len() == 3);
    assert("updated_at"@.len() == 10);
}

proof fn lemma_source_fields(s: SourceRow)
    ensures
        ({
            let item = source_json(s);
            let shown = display_of(s.source_key@);
            &&& field(item, "kind"@) == Some(JsonView::Str(shown.kind))
            &&& field(item, "label"@) == Some(JsonView::Str(shown.label))
            &&& field(item, "url"@) == Some(JsonView::Str(shown.url))
            &&& field(item, "occurred_at"@) == Some(JsonView::Str(iso_text(s.occurred_at)))
            &&& field(item, "ingested_at"@) == Some(JsonView::Str(iso_text(s.ingested_at)))
        }),
{
    reveal_strlit("kind");
    reveal_strlit("label");
    reveal_strlit("url");
    reveal_strlit("occurred_at");
    reveal_strlit("ingested_at");
    assert("kind"@.len() == 4);
    assert("label"@.len() == 5);
    assert("url"@.len() == 3);
    assert("occurred_at"@.len() == 11);
    assert("ingested_at"@.len() == 11);
    assert("occurred_at"@[0] == 'o');
    assert("ingested_at"@[0] == 'i');
}

} // verus!
