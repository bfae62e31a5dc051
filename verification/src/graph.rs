//! The graph of pages: who links to whom.
use crate::clock::{iso, iso_text};
use crate::json::{
    append, array_view, field, items_of, put, put_text, string_array, string_items, text_at,
    text_value, Json, JsonView,
};
use crate::order::{increasing, law_sorted_distinct, place, precedes, sorted_distinct};
use crate::page::{
    add_tags, law_common_names_are_no_tags, law_tags_hold_what_page_has, short_type,
    strip_wiki_prefix, with_tags, PageRow,
};
use crate::text::{
    before_char, blank, chars_of, find_char, first_index, law_parts_around, law_trimmed,
    lemma_first_index, lowercase, part_before, same, text_of, texts, to_lowercase, trim, trimmed,
    white_space,
};
use vstd::prelude::*;
use vstd::string::*;

verus! {

/// The targets of the links in a text: what stands between `[[` and the next `]`, where that is
/// anything. Behind the closing bracket the search goes on; without one it ends.
pub open spec fn links_in(s: Seq<char>) -> Seq<Seq<char>>
    decreases s.len(),
{
    if s.len() < 2 {
        Seq::empty()
    } else if s[0] == '[' && s[1] == '[' {
        let inside = s.skip(2);
        let end = first_index(inside, ']');
        if end >= inside.len() {
            Seq::empty()
        } else {
            proof {
                lemma_first_index(inside, ']');
            }
            let rest = links_in(inside.skip(end + 1));
            if end == 0 {
                rest
            } else {
                seq![inside.take(end)] + rest
            }
        }
    } else {
        links_in(s.drop_first())
    }
}

/// The targets of the links in `body`.
pub fn wikilinks(body: &str) -> (r: Vec<String>)
    ensures
        texts(r@) == links_in(body@),
{
    let chars = chars_of(body);
    let mut out: Vec<String> = Vec::new();
    let mut i: usize = 0;
    proof {
        assert(chars@.skip(0) =~= chars@);
        assert(texts(out@) + links_in(chars@) =~= links_in(chars@));
    }
    while i < chars.len() && chars.len() - i >= 2
        invariant
            i <= chars@.len(),
            chars@ == body@,
            links_in(body@) == texts(out@) + links_in(chars@.skip(i as int)),
        decreases chars@.len() - i,
    {
        let ghost now = chars@.skip(i as int);
        if chars[i] == '[' && chars[i + 1] == '[' {
            let start: usize = i + 2;
            let end = find_char(&chars, start, ']');
            let ghost inside = now.skip(2);
            proof {
                assert(inside =~= chars@.skip(start as int));
            }
            if end == chars.len() {
                proof {
                    assert(texts(out@) + links_in(now) =~= texts(out@));
                }
                return out;
            }
            proof {
                assert(inside.skip(end - start + 1) =~= chars@.skip(end + 1));
            }
            if end > start {
                let ghost before = out@;
                out.push(text_of(&chars, start, end));
                proof {
                    let link = chars@.subrange(start as int, end as int);
                    assert(inside.take(end - start) =~= link);
                    assert(texts(out@) =~= texts(before).push(link));
                    assert(texts(before) + (seq![link] + links_in(chars@.skip(end + 1)))
                        =~= texts(out@) + links_in(chars@.skip(end + 1)));
                }
            }
            i = end + 1;
        } else {
            proof {
                assert(now.drop_first() =~= chars@.skip(i + 1));
            }
            i += 1;
        }
    }
    proof {
        assert(texts(out@) + links_in(chars@.skip(i as int)) =~= texts(out@));
    }
    out
}

/// Whether `link` stands in `s` at position `at`, between `[[` and `]`.
pub open spec fn link_at(s: Seq<char>, link: Seq<char>, at: int) -> bool {
    &&& 0 <= at
    &&& at + 2 + link.len() < s.len()
    &&& s[at] == '['
    &&& s[at + 1] == '['
    &&& s.subrange(at + 2, at + 2 + link.len()) == link
    &&& s[at + 2 + link.len()] == ']'
}

/// Each link is a text without a closing bracket, and stands in the body between `[[` and `]`.
pub proof fn law_links_stand_in_body(s: Seq<char>, i: int)
    requires
        0 <= i < links_in(s).len(),
    ensures
        links_in(s)[i].len() > 0,
        !links_in(s)[i].contains(']'),
        exists|at: int| link_at(s, links_in(s)[i], at),
    decreases s.len(),
{
    let link = links_in(s)[i];
    if s[0] == '[' && s[1] == '[' {
        let inside = s.skip(2);
        let end = first_index(inside, ']');
        lemma_first_index(inside, ']');
        let rest = inside.skip(end + 1);
        if end > 0 && i == 0 {
            assert(link == inside.take(end));
            assert(s.subrange(2, 2 + link.len() as int) =~= link);
            assert(link_at(s, link, 0));
        } else {
            let j = if end > 0 {
                i - 1
            } else {
                i
            };
            assert(link == links_in(rest)[j]);
            law_links_stand_in_body(rest, j);
            let at = choose|at: int| link_at(rest, link, at);
            let there = at + 2 + end + 1;
            assert(s.subrange(there + 2, there + 2 + link.len()) =~= rest.subrange(
                at + 2,
                at + 2 + link.len(),
            ));
            assert(link_at(s, link, there));
        }
    } else {
        let rest = s.drop_first();
        law_links_stand_in_body(rest, i);
        let at = choose|at: int| link_at(rest, link, at);
        assert(s.subrange(at + 3, at + 3 + link.len()) =~= rest.subrange(
            at + 2,
            at + 2 + link.len(),
        ));
        assert(link_at(s, link, at + 1));
    }
}

/// Whether a text neither opens a link nor ends in a bracket that could begin one.
pub open spec fn opens_nothing(s: Seq<char>) -> bool {
    &&& forall|i: int| 0 <= i < s.len() - 1 ==> !(#[trigger] s[i] == '[' && s[i + 1] == '[')
    &&& s.len() > 0 ==> s.last() != '['
}

/// A text that opens nothing adds no link to what follows it.
pub proof fn law_text_without_links_adds_none(before: Seq<char>, after: Seq<char>)
    requires
        opens_nothing(before),
    ensures
        links_in(before + after) == links_in(after),
    decreases before.len(),
{
    let s = before + after;
    if before.len() == 0 {
        assert(s =~= after);
    } else {
        let rest = before.drop_first();
        assert(s[0] == before[0]);
        assert(before.len() > 1 ==> s[1] == before[1]);
        assert forall|i: int| 0 <= i < rest.len() - 1 implies !(#[trigger] rest[i] == '['
            && rest[i + 1] == '[') by {
            assert(rest[i] == before[i + 1]);
        }
        law_text_without_links_adds_none(rest, after);
        assert(s.drop_first() =~= rest + after);
        if s.len() < 2 {
            assert(after =~= Seq::empty());
        }
    }
}

/// A link written behind a text that opens none is found, and what follows it is searched on.
pub proof fn law_written_link_is_found(before: Seq<char>, link: Seq<char>, after: Seq<char>)
    requires
        opens_nothing(before),
        link.len() > 0,
        !link.contains(']'),
    ensures
        links_in(before + seq!['[', '['] + link + seq![']', ']'] + after) == seq![link] + links_in(
            after,
        ),
{
    let written = seq!['[', '['] + link + seq![']', ']'] + after;
    law_text_without_links_adds_none(before, written);
    assert(before + seq!['[', '['] + link + seq![']', ']'] + after =~= before + written);
    let inside = written.skip(2);
    assert(inside =~= link + seq![']', ']'] + after);
    lemma_first_index(inside, ']');
    assert(inside[link.len() as int] == ']');
    let end = first_index(inside, ']');
    if end < link.len() {
        assert(link[end] == ']');
    }
    assert(inside.take(end) =~= link);
    assert(inside.skip(end + 1) =~= seq![']'] + after);
    law_text_without_links_adds_none(seq![']'], after);
}

/// A page as the graph sees it: its id, the key by which others link to it, and the keys of the
/// pages that it links to.
#[derive(Debug, PartialEq, Eq)]
pub struct PageLinks {
    pub id: String,
    pub key: String,
    pub links: Vec<String>,
}

/// A page as the graph sees it, as texts.
pub struct LinkedPage {
    pub id: Seq<char>,
    pub key: Seq<char>,
    pub links: Seq<Seq<char>>,
}

/// An edge from the page with the first id to the page with the second.
pub type Edge = (Seq<char>, Seq<char>);

impl View for PageLinks {
    type V = LinkedPage;

    open spec fn view(&self) -> LinkedPage {
        LinkedPage { id: self.id@, key: self.key@, links: texts(self.links@) }
    }
}

/// The views of a list of pages.
pub open spec fn linked(pages: Seq<PageLinks>) -> Seq<LinkedPage> {
    Seq::new(pages.len(), |i: int| pages[i]@)
}

/// The views of a list of edges.
pub open spec fn edge_views(edges: Seq<(String, String)>) -> Seq<Edge> {
    Seq::new(edges.len(), |i: int| (edges[i].0@, edges[i].1@))
}

/// The id of the page with the key `key`: the last one, where several share it.
pub open spec fn target_of(pages: Seq<LinkedPage>, key: Seq<char>) -> Option<Seq<char>>
    decreases pages.len(),
{
    if pages.len() == 0 {
        None
    } else if pages.last().key == key {
        Some(pages.last().id)
    } else {
        target_of(pages.drop_last(), key)
    }
}

/// The edges for the links of the page `id`, in their order: one for each link that names
/// another page.
pub open spec fn page_edges(
    pages: Seq<LinkedPage>,
    id: Seq<char>,
    links: Seq<Seq<char>>,
) -> Seq<Edge>
    decreases links.len(),
{
    if links.len() == 0 {
        Seq::empty()
    } else {
        let before = page_edges(pages, id, links.drop_last());
        match target_of(pages, links.last()) {
            Some(target) => if target != id {
                before.push((id, target))
            } else {
                before
            },
            None => before,
        }
    }
}

/// The edges for the links of the pages `from`, page by page.
pub open spec fn all_edges(pages: Seq<LinkedPage>, from: Seq<LinkedPage>) -> Seq<Edge>
    decreases from.len(),
{
    if from.len() == 0 {
        Seq::empty()
    } else {
        all_edges(pages, from.drop_last()) + page_edges(pages, from.last().id, from.last().links)
    }
}

/// The members of `s` in their order, without repeats.
pub open spec fn first_of_each(s: Seq<Edge>) -> Seq<Edge>
    decreases s.len(),
{
    if s.len() == 0 {
        s
    } else if first_of_each(s.drop_last()).contains(s.last()) {
        first_of_each(s.drop_last())
    } else {
        first_of_each(s.drop_last()).push(s.last())
    }
}

/// The edges of the graph.
pub open spec fn edges_of(pages: Seq<LinkedPage>) -> Seq<Edge> {
    first_of_each(all_edges(pages, pages))
}

/// How many ends of edges are at the page `id`.
pub open spec fn degree_of(edges: Seq<Edge>, id: Seq<char>) -> nat
    decreases edges.len(),
{
    if edges.len() == 0 {
        0
    } else {
        let out: nat = if edges.last().0 == id {
            1
        } else {
            0
        };
        let inward: nat = if edges.last().1 == id {
            1
        } else {
            0
        };
        degree_of(edges.drop_last(), id) + out + inward
    }
}

/// The pages with an edge to `id`, in the order of the edges.
pub open spec fn sources_to(edges: Seq<Edge>, id: Seq<char>) -> Seq<Seq<char>>
    decreases edges.len(),
{
    if edges.len() == 0 {
        Seq::empty()
    } else if edges.last().1 == id {
        sources_to(edges.drop_last(), id).push(edges.last().0)
    } else {
        sources_to(edges.drop_last(), id)
    }
}

/// The pages with an edge to `id`, in the order of their ids.
pub open spec fn backlinks_of(edges: Seq<Edge>, id: Seq<char>) -> Seq<Seq<char>> {
    sorted_distinct(sources_to(edges, id))
}

/// The page with the key `key`.
fn find_target(pages: &Vec<PageLinks>, key: &str) -> (r: Option<usize>)
    ensures
        match r {
            Some(i) => i < pages@.len() && target_of(linked(pages@), key@) == Some(
                pages@[i as int].id@,
            ),
            None => target_of(linked(pages@), key@) is None,
        },
{
    let ghost all = linked(pages@);
    let mut i: usize = pages.len();
    proof {
        assert(all.take(i as int) =~= all);
    }
    while i > 0
        invariant
            i <= pages@.len(),
            all == linked(pages@),
            target_of(all, key@) == target_of(all.take(i as int), key@),
        decreases i,
    {
        proof {
            assert(all.take(i as int).drop_last() =~= all.take(i - 1));
        }
        i -= 1;
        if same(pages[i].key.as_str(), key) {
            return Some(i);
        }
    }
    None
}

/// Whether the edge from `source` to `target` is there.
fn has_edge(edges: &Vec<(String, String)>, source: &str, target: &str) -> (r: bool)
    ensures
        r == edge_views(edges@).contains((source@, target@)),
{
    let mut i: usize = 0;
    while i < edges.len()
        invariant
            i <= edges@.len(),
            forall|j: int| 0 <= j < i ==> #[trigger] edge_views(edges@)[j] != (source@, target@),
        decreases edges@.len() - i,
    {
        if same(edges[i].1.as_str(), target) && same(edges[i].0.as_str(), source) {
            proof {
                assert(edge_views(edges@)[i as int] == (source@, target@));
            }
            return true;
        }
        proof {
            assert(edge_views(edges@)[i as int] != (source@, target@));
        }
        i += 1;
    }
    false
}

/// Adds the edges for the links of `page` that are not there yet.
fn add_page_edges(
    pages: &Vec<PageLinks>,
    page: &PageLinks,
    edges: &mut Vec<(String, String)>,
    Ghost(done): Ghost<Seq<Edge>>,
)
    requires
        edge_views(old(edges)@) == first_of_each(done),
    ensures
        edge_views(final(edges)@) == first_of_each(
            done + page_edges(linked(pages@), page@.id, page@.links),
        ),
{
    let ghost all = linked(pages@);
    let ghost links = texts(page.links@);
    let mut i: usize = 0;
    proof {
        assert(links.take(0) =~= Seq::empty());
        assert(done + page_edges(all, page@.id, links.take(0)) =~= done);
    }
    while i < page.links.len()
        invariant
            i <= page.links@.len(),
            all == linked(pages@),
            links == texts(page.links@),
            edge_views(edges@) == first_of_each(
                done + page_edges(all, page.id@, links.take(i as int)),
            ),
        decreases page.links@.len() - i,
    {
        let ghost before = done + page_edges(all, page.id@, links.take(i as int));
        let ghost after = done + page_edges(all, page.id@, links.take(i + 1));
        proof {
            assert(links.take(i + 1).drop_last() =~= links.take(i as int));
            assert(links.take(i + 1).last() == page.links@[i as int]@);
        }
        if let Some(t) = find_target(pages, page.links[i].as_str()) {
            let target = pages[t].id.as_str();
            if !same(target, page.id.as_str()) {
                let ghost old_edges = edges@;
                let ghost edge = (page.id@, target@);
                proof {
                    assert(after =~= before.push(edge));
                    assert(after.drop_last() =~= before);
                }
                if !has_edge(edges, page.id.as_str(), target) {
                    edges.push((page.id.clone(), target.to_owned()));
                    proof {
                        assert(edge_views(edges@) =~= edge_views(old_edges).push(edge));
                    }
                }
            } else {
                proof {
                    assert(after =~= before);
                }
            }
        } else {
            proof {
                assert(after =~= before);
            }
        }
        i += 1;
    }
    proof {
        assert(links.take(i as int) =~= links);
    }
}

/// The edges of the graph.
pub fn link_graph(pages: &Vec<PageLinks>) -> (r: Vec<(String, String)>)
    ensures
        edge_views(r@) == edges_of(linked(pages@)),
{
    let ghost all = linked(pages@);
    let mut edges: Vec<(String, String)> = Vec::new();
    let mut i: usize = 0;
    proof {
        assert(all.take(0) =~= Seq::empty());
        assert(edge_views(edges@) =~= Seq::empty());
    }
    while i < pages.len()
        invariant
            i <= pages@.len(),
            all == linked(pages@),
            edge_views(edges@) == first_of_each(all_edges(all, all.take(i as int))),
        decreases pages@.len() - i,
    {
        proof {
            assert(all.take(i + 1).drop_last() =~= all.take(i as int));
            assert(all.take(i + 1).last() == pages@[i as int]@);
        }
        add_page_edges(
            pages,
            &pages[i],
            &mut edges,
            Ghost(all_edges(all, all.take(i as int))),
        );
        i += 1;
    }
    proof {
        assert(all.take(i as int) =~= all);
    }
    edges
}

/// How many ends of edges are at the page `id`.
pub fn degree(edges: &Vec<(String, String)>, id: &str) -> (r: u128)
    ensures
        r == degree_of(edge_views(edges@), id@),
{
    let ghost all = edge_views(edges@);
    let mut n: u128 = 0;
    let mut i: usize = 0;
    proof {
        assert(all.take(0) =~= Seq::empty());
    }
    while i < edges.len()
        invariant
            i <= edges@.len(),
            all == edge_views(edges@),
            n == degree_of(all.take(i as int), id@),
            n <= 2 * i,
        decreases edges@.len() - i,
    {
        proof {
            assert(all.take(i + 1).drop_last() =~= all.take(i as int));
            assert(all.take(i + 1).last() == all[i as int]);
        }
        if same(edges[i].0.as_str(), id) {
            n += 1;
        }
        if same(edges[i].1.as_str(), id) {
            n += 1;
        }
        i += 1;
    }
    proof {
        assert(all.take(i as int) =~= all);
    }
    n
}

/// The pages with an edge to `id`, in the order of their ids.
pub fn backlinks(edges: &Vec<(String, String)>, id: &str) -> (r: Vec<String>)
    ensures
        texts(r@) == backlinks_of(edge_views(edges@), id@),
{
    let ghost all = edge_views(edges@);
    let mut out: Vec<String> = Vec::new();
    let mut i: usize = 0;
    proof {
        assert(all.take(0) =~= Seq::empty());
        assert(texts(out@) =~= Seq::empty());
    }
    while i < edges.len()
        invariant
            i <= edges@.len(),
            all == edge_views(edges@),
            texts(out@) == sorted_distinct(sources_to(all.take(i as int), id@)),
        decreases edges@.len() - i,
    {
        proof {
            assert(all.take(i + 1).drop_last() =~= all.take(i as int));
            assert(all.take(i + 1).last() == all[i as int]);
        }
        if same(edges[i].1.as_str(), id) {
            proof {
                let before = sources_to(all.take(i as int), id@);
                assert(before.push(all[i as int].0).drop_last() =~= before);
            }
            place(&mut out, edges[i].0.as_str());
        }
        i += 1;
    }
    proof {
        assert(all.take(i as int) =~= all);
    }
    out
}

/// The key by which a page with this title is linked to.
pub open spec fn title_key(title: Seq<char>) -> Seq<char> {
    lowercase(trimmed(title))
}

/// The key of the page that a link names: what stands before its first bar.
pub open spec fn link_key(link: Seq<char>) -> Seq<char> {
    lowercase(trimmed(before_char(link, '|')))
}

/// A stored page as the graph sees it.
pub open spec fn linked_page(p: PageRow) -> LinkedPage {
    LinkedPage {
        id: p.document_id@,
        key: title_key(p.title@),
        links: links_in(p.body@).map_values(|link: Seq<char>| link_key(link)),
    }
}

/// The keys of the pages that a body links to.
fn link_keys(body: &str) -> (r: Vec<String>)
    ensures
        texts(r@) == links_in(body@).map_values(|link: Seq<char>| link_key(link)),
{
    let found = wikilinks(body);
    let ghost all = texts(found@);
    let mut out: Vec<String> = Vec::new();
    let mut i: usize = 0;
    proof {
        assert(texts(out@) =~= all.take(0).map_values(|link: Seq<char>| link_key(link)));
    }
    while i < found.len()
        invariant
            i <= found@.len(),
            all == texts(found@),
            texts(out@) == all.take(i as int).map_values(|link: Seq<char>| link_key(link)),
        decreases found@.len() - i,
    {
        let ghost before = out@;
        let name = part_before(found[i].as_str(), '|');
        out.push(to_lowercase(trim(name.as_str()).as_str()));
        proof {
            assert(texts(out@) =~= texts(before).push(link_key(all[i as int])));
            assert(texts(out@) =~= all.take(i + 1).map_values(|link: Seq<char>| link_key(link)));
        }
        i += 1;
    }
    proof {
        assert(all.take(i as int) =~= all);
    }
    out
}

/// The stored pages as the graph sees them.
pub fn link_pages(pages: &Vec<PageRow>) -> (r: Vec<PageLinks>)
    ensures
        linked(r@) == pages@.map_values(|p: PageRow| linked_page(p)),
{
    let mut out: Vec<PageLinks> = Vec::new();
    let mut i: usize = 0;
    proof {
        assert(linked(out@) =~= pages@.take(0).map_values(|p: PageRow| linked_page(p)));
    }
    while i < pages.len()
        invariant
            i <= pages@.len(),
            linked(out@) == pages@.take(i as int).map_values(|p: PageRow| linked_page(p)),
        decreases pages@.len() - i,
    {
        let p = &pages[i];
        let ghost before = out@;
        out.push(
            PageLinks {
                id: p.document_id.clone(),
                key: to_lowercase(trim(p.title.as_str()).as_str()),
                links: link_keys(p.body.as_str()),
            },
        );
        proof {
            assert(linked(out@) =~= linked(before).push(linked_page(pages@[i as int])));
            assert(linked(out@) =~= pages@.take(i + 1).map_values(|p: PageRow| linked_page(p)));
        }
        i += 1;
    }
    proof {
        assert(pages@.take(i as int) =~= pages@);
    }
    out
}

/// A page as a node of the graph.
pub open spec fn node_json(p: PageRow, edges: Seq<Edge>) -> JsonView {
    JsonView::Object(
        with_tags(
            map![
                "id"@ => JsonView::Str(p.document_id@),
                "title"@ => JsonView::Str(p.title@),
                "type"@ => JsonView::Str(short_type(p.source_type@)),
                "url"@ => JsonView::Str(p.url@),
                "updated_at"@ => JsonView::Str(iso_text(p.updated_at)),
            ],
            p,
        ).insert("degree"@, JsonView::Int(degree_of(edges, p.document_id@) as int)).insert(
            "backlinks"@,
            JsonView::Array(string_items(backlinks_of(edges, p.document_id@))),
        ),
    )
}

/// An edge of the graph.
pub open spec fn edge_json(edge: Edge) -> JsonView {
    JsonView::Object(
        map!["source"@ => JsonView::Str(edge.0), "target"@ => JsonView::Str(edge.1)],
    )
}

/// The graph with its nodes and its edges.
pub open spec fn graph_json(pages: Seq<PageRow>, edges: Seq<Edge>) -> JsonView {
    JsonView::Object(
        map![
            "node_count"@ => JsonView::Int(pages.len() as int),
            "edge_count"@ => JsonView::Int(edges.len() as int),
            "nodes"@ => JsonView::Array(pages.map_values(|p: PageRow| node_json(p, edges))),
            "edges"@ => JsonView::Array(edges.map_values(|e: Edge| edge_json(e))),
        ],
    )
}

/// The graph of pages.
pub open spec fn graph_of(pages: Seq<PageRow>) -> JsonView {
    graph_json(pages, edges_of(pages.map_values(|p: PageRow| linked_page(p))))
}

/// A page as a node of the graph.
fn node(p: &PageRow, edges: &Vec<(String, String)>) -> (r: Json)
    ensures
        r@ == node_json(*p, edge_views(edges@)),
{
    let mut fields: Vec<(String, Json)> = Vec::new();
    put_text(&mut fields, "id", p.document_id.as_str());
    put_text(&mut fields, "title", p.title.as_str());
    put_text(&mut fields, "type", strip_wiki_prefix(p.source_type.as_str()).as_str());
    put_text(&mut fields, "url", p.url.as_str());
    put_text(&mut fields, "updated_at", iso(p.updated_at).as_str());
    add_tags(&mut fields, p);
    let ends = degree(edges, p.document_id.as_str());
    proof {
        lemma_degree_bound(edge_views(edges@), p.document_id@);
        assert(edge_views(edges@).len() == edges.len());
    }
    put(&mut fields, "degree", Json::Int(ends as i128));
    put(&mut fields, "backlinks", string_array(&backlinks(edges, p.document_id.as_str())));
    Json::Object(fields)
}

/// Each edge has two ends.
proof fn lemma_degree_bound(edges: Seq<Edge>, id: Seq<char>)
    ensures
        degree_of(edges, id) <= 2 * edges.len(),
    decreases edges.len(),
{
    if edges.len() > 0 {
        lemma_degree_bound(edges.drop_last(), id);
    }
}

/// The graph with its nodes and its edges.
pub fn graph_report(pages: &Vec<PageRow>, edges: &Vec<(String, String)>) -> (r: Json)
    ensures
        r@ == graph_json(pages@, edge_views(edges@)),
{
    let ghost all = edge_views(edges@);
    let mut nodes: Vec<Json> = Vec::new();
    let mut i: usize = 0;
    let edge_count = edges.len();
    proof {
        assert(array_view(nodes@) =~= pages@.take(0).map_values(|p: PageRow| node_json(p, all)));
    }
    while i < pages.len()
        invariant
            i <= pages@.len(),
            all == edge_views(edges@),
            edges@.len() == edge_count,
            array_view(nodes@) == pages@.take(i as int).map_values(
                |p: PageRow| node_json(p, all),
            ),
        decreases pages@.len() - i,
    {
        append(&mut nodes, node(&pages[i], edges));
        proof {
            assert(pages@.take(i + 1).map_values(|p: PageRow| node_json(p, all)) =~= pages@.take(
                i as int,
            ).map_values(|p: PageRow| node_json(p, all)).push(node_json(pages@[i as int], all)));
        }
        i += 1;
    }
    proof {
        assert(pages@.take(i as int) =~= pages@);
    }
    let mut shown: Vec<Json> = Vec::new();
    let mut k: usize = 0;
    proof {
        assert(array_view(shown@) =~= all.take(0).map_values(|e: Edge| edge_json(e)));
    }
    while k < edges.len()
        invariant
            k <= edges@.len(),
            all == edge_views(edges@),
            array_view(shown@) == all.take(k as int).map_values(|e: Edge| edge_json(e)),
        decreases edges@.len() - k,
    {
        let mut fields: Vec<(String, Json)> = Vec::new();
        put_text(&mut fields, "source", edges[k].0.as_str());
        put_text(&mut fields, "target", edges[k].1.as_str());
        append(&mut shown, Json::Object(fields));
        proof {
            assert(all.take(k + 1).map_values(|e: Edge| edge_json(e)) =~= all.take(
                k as int,
            ).map_values(|e: Edge| edge_json(e)).push(edge_json(all[k as int])));
        }
        k += 1;
    }
    proof {
        assert(all.take(k as int) =~= all);
    }
    let mut fields: Vec<(String, Json)> = Vec::new();
    put(&mut fields, "node_count", Json::Int(pages.len() as i128));
    put(&mut fields, "edge_count", Json::Int(edges.len() as i128));
    put(&mut fields, "nodes", Json::Array(nodes));
    put(&mut fields, "edges", Json::Array(shown));
    Json::Object(fields)
}

/// The graph of all pages: the links in their bodies name other pages by title, in any case.
pub fn wiki_graph(pages: &Vec<PageRow>) -> (r: Json)
    ensures
        r@ == graph_of(pages@),
{
    graph_report(pages, &link_graph(&link_pages(pages)))
}

/// A list without repeats has no repeats, and lost no member.
proof fn lemma_first_of_each(s: Seq<Edge>)
    ensures
        first_of_each(s).no_duplicates(),
        forall|e: Edge| #[trigger] first_of_each(s).contains(e) <==> s.contains(e),
    decreases s.len(),
{
    if s.len() > 0 {
        let before = first_of_each(s.drop_last());
        lemma_first_of_each(s.drop_last());
        assert forall|e: Edge| #[trigger] first_of_each(s).contains(e) <==> s.contains(e) by {
            if s.contains(e) {
                let k = s.index_of(e);
                if k < s.len() - 1 {
                    assert(s.drop_last()[k] == e);
                    assert(before.contains(e));
                    assert(first_of_each(s)[before.index_of(e)] == e);
                } else if !before.contains(e) {
                    assert(first_of_each(s)[before.len() as int] == e);
                }
            }
            if first_of_each(s).contains(e) {
                let k = first_of_each(s).index_of(e);
                if k < before.len() {
                    assert(before[k] == e);
                    assert(before.contains(e));
                    assert(s[s.drop_last().index_of(e)] == e);
                } else {
                    assert(s[s.len() - 1] == e);
                }
            }
        }
    }
}

/// The page that a key names is one of the pages, and has that key.
proof fn lemma_target(pages: Seq<LinkedPage>, key: Seq<char>)
    ensures
        target_of(pages, key) matches Some(id) ==> exists|i: int|
            0 <= i < pages.len() && (#[trigger] pages[i]).id == id && pages[i].key == key,
    decreases pages.len(),
{
    if pages.len() > 0 {
        if pages.last().key == key {
            assert(pages[pages.len() - 1].key == key);
        } else {
            lemma_target(pages.drop_last(), key);
            if target_of(pages, key) is Some {
                let id = target_of(pages, key).unwrap();
                let i = choose|i: int|
                    0 <= i < pages.drop_last().len() && (#[trigger] pages.drop_last()[i]).id == id
                        && pages.drop_last()[i].key == key;
                assert(pages[i].id == id && pages[i].key == key);
            }
        }
    }
}

/// Whether the page `p` links to the page `q` among `pages`.
pub open spec fn links_to(pages: Seq<LinkedPage>, p: LinkedPage, id: Seq<char>) -> bool {
    exists|k: int|
        0 <= k < p.links.len() && target_of(pages, #[trigger] p.links[k]) == Some(id)
}

/// The edges of one page.
proof fn lemma_page_edges(
    pages: Seq<LinkedPage>,
    id: Seq<char>,
    links: Seq<Seq<char>>,
    e: Edge,
)
    ensures
        page_edges(pages, id, links).contains(e) <==> e.0 == id && e.1 != id && exists|k: int|
            0 <= k < links.len() && target_of(pages, #[trigger] links[k]) == Some(e.1),
    decreases links.len(),
{
    if links.len() > 0 {
        let rest = links.drop_last();
        lemma_page_edges(pages, id, rest, e);
        let before = page_edges(pages, id, rest);
        let after = page_edges(pages, id, links);
        if after.contains(e) {
            let j = after.index_of(e);
            if j < before.len() {
                assert(before[j] == e);
                assert(before.contains(e));
                let k = choose|k: int|
                    0 <= k < rest.len() && target_of(pages, #[trigger] rest[k]) == Some(e.1);
                assert(links[k] == rest[k]);
            } else {
                assert(target_of(pages, links[links.len() - 1]) == Some(e.1));
            }
        }
        if e.0 == id && e.1 != id && (exists|k: int|
            0 <= k < links.len() && target_of(pages, #[trigger] links[k]) == Some(e.1)) {
            let k = choose|k: int|
                0 <= k < links.len() && target_of(pages, #[trigger] links[k]) == Some(e.1);
            if k < rest.len() {
                assert(rest[k] == links[k]);
                assert(before.contains(e));
                assert(after[before.index_of(e)] == e);
            } else {
                assert(after[before.len() as int] == e);
            }
        }
    }
}

/// The edges of the first pages.
proof fn lemma_all_edges(pages: Seq<LinkedPage>, from: Seq<LinkedPage>, e: Edge)
    ensures
        all_edges(pages, from).contains(e) <==> e.0 != e.1 && exists|i: int|
            0 <= i < from.len() && (#[trigger] from[i]).id == e.0 && links_to(
                pages,
                from[i],
                e.1,
            ),
    decreases from.len(),
{
    if from.len() > 0 {
        let rest = from.drop_last();
        let last = from.last();
        lemma_all_edges(pages, rest, e);
        lemma_page_edges(pages, last.id, last.links, e);
        let a = all_edges(pages, rest);
        let b = page_edges(pages, last.id, last.links);
        if (a + b).contains(e) {
            let j = (a + b).index_of(e);
            if j < a.len() {
                assert(a[j] == e);
                assert(a.contains(e));
                let i = choose|i: int|
                    0 <= i < rest.len() && (#[trigger] rest[i]).id == e.0 && links_to(
                        pages,
                        rest[i],
                        e.1,
                    );
                assert(from[i] == rest[i]);
            } else {
                assert(b[j - a.len()] == e);
                assert(b.contains(e));
                assert(from[from.len() - 1] == last);
                assert(links_to(pages, last, e.1));
            }
        }
        if e.0 != e.1 && (exists|i: int|
            0 <= i < from.len() && (#[trigger] from[i]).id == e.0 && links_to(
                pages,
                from[i],
                e.1,
            )) {
            let i = choose|i: int|
                0 <= i < from.len() && (#[trigger] from[i]).id == e.0 && links_to(
                    pages,
                    from[i],
                    e.1,
                );
            if i < rest.len() {
                assert(rest[i] == from[i]);
                assert(a.contains(e));
                assert((a + b)[a.index_of(e)] == e);
            } else {
                assert(b.contains(e));
                assert((a + b)[a.len() + b.index_of(e)] == e);
            }
        }
    }
}

/// There is an edge from one page to another exactly where the first links to the second; no
/// page has an edge to itself, and no edge is there twice.
pub proof fn law_edges(pages: Seq<LinkedPage>, e: Edge)
    ensures
        edges_of(pages).no_duplicates(),
        edges_of(pages).contains(e) <==> e.0 != e.1 && exists|i: int|
            0 <= i < pages.len() && (#[trigger] pages[i]).id == e.0 && links_to(
                pages,
                pages[i],
                e.1,
            ),
{
    lemma_first_of_each(all_edges(pages, pages));
    lemma_all_edges(pages, pages, e);
}

/// Both ends of an edge are pages of the graph.
pub proof fn law_edges_join_pages(pages: Seq<LinkedPage>, e: Edge)
    requires
        edges_of(pages).contains(e),
    ensures
        exists|i: int| 0 <= i < pages.len() && (#[trigger] pages[i]).id == e.0,
        exists|i: int| 0 <= i < pages.len() && (#[trigger] pages[i]).id == e.1,
{
    law_edges(pages, e);
    let i = choose|i: int|
        0 <= i < pages.len() && (#[trigger] pages[i]).id == e.0 && links_to(pages, pages[i], e.1);
    let p = pages[i];
    let k = choose|k: int|
        0 <= k < p.links.len() && target_of(pages, #[trigger] p.links[k]) == Some(e.1);
    lemma_target(pages, p.links[k]);
}

/// The sources of the edges to a page.
proof fn lemma_sources(edges: Seq<Edge>, id: Seq<char>, source: Seq<char>)
    ensures
        sources_to(edges, id).contains(source) <==> edges.contains((source, id)),
    decreases edges.len(),
{
    if edges.len() > 0 {
        let rest = edges.drop_last();
        lemma_sources(rest, id, source);
        let before = sources_to(rest, id);
        let after = sources_to(edges, id);
        if edges.contains((source, id)) {
            let k = edges.index_of((source, id));
            if k < rest.len() {
                assert(rest[k] == (source, id));
                assert(before.contains(source));
                assert(after[before.index_of(source)] == source);
            } else {
                assert(after[before.len() as int] == source);
            }
        }
        if after.contains(source) {
            let k = after.index_of(source);
            if k < before.len() {
                assert(before[k] == source);
                assert(before.contains(source));
                assert(edges[rest.index_of((source, id))] == (source, id));
            } else {
                assert(edges[edges.len() - 1] == (source, id));
            }
        }
    }
}

/// The backlinks of a page are the pages with an edge to it, each once and in order.
pub proof fn law_backlinks(edges: Seq<Edge>, id: Seq<char>, source: Seq<char>)
    ensures
        backlinks_of(edges, id).contains(source) <==> edges.contains((source, id)),
        increasing(backlinks_of(edges, id)),
{
    lemma_sources(edges, id, source);
    law_sorted_distinct(sources_to(edges, id));
}

/// The sum of the degrees of pages.
pub open spec fn degree_sum(edges: Seq<Edge>, ids: Seq<Seq<char>>) -> nat
    decreases ids.len(),
{
    if ids.len() == 0 {
        0
    } else {
        degree_sum(edges, ids.drop_last()) + degree_of(edges, ids.last())
    }
}

proof fn lemma_degree_step(edges: Seq<Edge>, ids: Seq<Seq<char>>)
    requires
        ids.no_duplicates(),
        edges.len() > 0,
    ensures
        degree_sum(edges, ids) == degree_sum(edges.drop_last(), ids) + (if ids.contains(
            edges.last().0,
        ) {
            1nat
        } else {
            0
        }) + (if ids.contains(edges.last().1) {
            1nat
        } else {
            0
        }),
    decreases ids.len(),
{
    if ids.len() > 0 {
        let rest = ids.drop_last();
        assert(rest.no_duplicates());
        lemma_degree_step(edges, rest);
        lemma_member_step(ids, edges.last().0);
        lemma_member_step(ids, edges.last().1);
    }
}

proof fn lemma_member_step(ids: Seq<Seq<char>>, x: Seq<char>)
    requires
        ids.no_duplicates(),
        ids.len() > 0,
    ensures
        ids.contains(x) <==> ids.drop_last().contains(x) || ids.last() == x,
        !(ids.drop_last().contains(x) && ids.last() == x),
{
    let rest = ids.drop_last();
    if ids.contains(x) {
        let k = ids.index_of(x);
        if k < rest.len() {
            assert(rest[k] == x);
        }
    }
    if rest.contains(x) {
        assert(ids[rest.index_of(x)] == x);
    }
    if ids.last() == x {
        assert(ids[ids.len() - 1] == x);
    }
}

proof fn lemma_degree_sum(edges: Seq<Edge>, ids: Seq<Seq<char>>)
    requires
        ids.no_duplicates(),
        forall|k: int|
            0 <= k < edges.len() ==> ids.contains((#[trigger] edges[k]).0) && ids.contains(
                edges[k].1,
            ),
    ensures
        degree_sum(edges, ids) == 2 * edges.len(),
    decreases edges.len(),
{
    if edges.len() == 0 {
        lemma_degree_sum_empty(edges, ids);
    } else {
        let rest = edges.drop_last();
        assert forall|k: int| 0 <= k < rest.len() implies ids.contains((#[trigger] rest[k]).0)
            && ids.contains(rest[k].1) by {
            assert(rest[k] == edges[k]);
        }
        lemma_degree_sum(rest, ids);
        lemma_degree_step(edges, ids);
        assert(ids.contains(edges[edges.len() - 1].0));
    }
}

proof fn lemma_degree_sum_empty(edges: Seq<Edge>, ids: Seq<Seq<char>>)
    requires
        edges.len() == 0,
    ensures
        degree_sum(edges, ids) == 0,
    decreases ids.len(),
{
    if ids.len() > 0 {
        lemma_degree_sum_empty(edges, ids.drop_last());
    }
}

/// Where no two pages share an id, the degrees of all pages add up to twice the number of edges.
pub proof fn law_degrees_add_up(pages: Seq<LinkedPage>)
    requires
        pages.map_values(|p: LinkedPage| p.id).no_duplicates(),
    ensures
        degree_sum(edges_of(pages), pages.map_values(|p: LinkedPage| p.id)) == 2 * edges_of(
            pages,
        ).len(),
{
    let ids = pages.map_values(|p: LinkedPage| p.id);
    let edges = edges_of(pages);
    assert forall|k: int| 0 <= k < edges.len() implies ids.contains((#[trigger] edges[k]).0)
        && ids.contains(edges[k].1) by {
        assert(edges.contains(edges[k]));
        law_edges_join_pages(pages, edges[k]);
        let i = choose|i: int| 0 <= i < pages.len() && (#[trigger] pages[i]).id == edges[k].0;
        let j = choose|j: int| 0 <= j < pages.len() && (#[trigger] pages[j]).id == edges[k].1;
        assert(ids[i] == edges[k].0);
        assert(ids[j] == edges[k].1);
    }
    lemma_degree_sum(edges, ids);
}

// What the links in bodies come to.

/// The key of a page is its title in lower case, without the white space around it, and no part of
/// the title is left out.
pub proof fn law_key_is_whole_title(a: Seq<char>, title: Seq<char>, b: Seq<char>)
    requires
        blank(a),
        blank(b),
        title.len() > 0 ==> !white_space(title[0]) && !white_space(title.last()),
    ensures
        title_key(a + title + b) == lowercase(title),
{
    law_trimmed(a, title, b);
}

/// A link written as the title of a page has the key of that page, also where the title holds
/// spaces, and whatever text is shown for it behind a bar.
pub proof fn law_title_is_its_link(title: Seq<char>, shown: Seq<char>)
    requires
        !title.contains('|'),
    ensures
        link_key(title) == title_key(title),
        link_key(title + seq!['|'] + shown) == title_key(title),
{
    law_parts_around(title, '|', shown);
}

/// A key leads to the last page that has it, and nowhere where no page has it.
pub proof fn law_key_leads_to_last(pages: Seq<LinkedPage>, key: Seq<char>, j: int)
    ensures
        0 <= j < pages.len() && pages[j].key == key && (forall|k: int|
            j < k < pages.len() ==> (#[trigger] pages[k]).key != key) ==> target_of(pages, key)
            == Some(pages[j].id),
        (forall|k: int| 0 <= k < pages.len() ==> (#[trigger] pages[k]).key != key) ==> target_of(
            pages,
            key,
        ) is None,
    decreases pages.len(),
{
    if pages.len() > 0 {
        let rest = pages.drop_last();
        law_key_leads_to_last(rest, key, j);
        if 0 <= j < pages.len() && pages[j].key == key && (forall|k: int|
            j < k < pages.len() ==> (#[trigger] pages[k]).key != key) {
            if j < rest.len() {
                assert(pages[pages.len() - 1].key != key);
                assert(rest[j] == pages[j]);
                assert forall|k: int| j < k < rest.len() implies (#[trigger] rest[k]).key != key by {
                    assert(rest[k] == pages[k]);
                }
            }
        }
        if forall|k: int| 0 <= k < pages.len() ==> (#[trigger] pages[k]).key != key {
            assert(pages[pages.len() - 1].key != key);
            assert forall|k: int| 0 <= k < rest.len() implies (#[trigger] rest[k]).key != key by {
                assert(rest[k] == pages[k]);
            }
        }
    }
}

/// Whether an edge of a graph leads from one page to another.
pub open spec fn joins(edge: JsonView, source: Seq<char>, target: Seq<char>) -> bool {
    &&& field(edge, "source"@) == Some(JsonView::Str(source))
    &&& field(edge, "target"@) == Some(JsonView::Str(target))
}

/// The edges that a graph lists.
pub open spec fn listed_edges(graph: JsonView) -> Seq<JsonView> {
    items_of(field(graph, "edges"@))
}

/// The nodes that a graph lists.
pub open spec fn listed_nodes(graph: JsonView) -> Seq<JsonView> {
    items_of(field(graph, "nodes"@))
}

proof fn lemma_graph_fields(pages: Seq<PageRow>, edges: Seq<Edge>)
    ensures
        ({
            let g = graph_json(pages, edges);
            &&& field(g, "node_count"@) == Some(JsonView::Int(pages.len() as int))
            &&& field(g, "edge_count"@) == Some(JsonView::Int(edges.len() as int))
            &&& listed_nodes(g) == pages.map_values(|p: PageRow| node_json(p, edges))
            &&& listed_edges(g) == edges.map_values(|e: Edge| edge_json(e))
        }),
{
    reveal_strlit("node_count");
    reveal_strlit("edge_count");
    reveal_strlit("nodes");
    reveal_strlit("edges");
    assert("node_count"@.len() == 10);
    assert("edge_count"@.len() == 10);
    assert("nodes"@.len() == 5);
    assert("edges"@.len() == 5);
    assert("node_count"@[0] == 'n');
    assert("edge_count"@[0] == 'e');
    assert("nodes"@[0] == 'n');
    assert("edges"@[0] == 'e');
}

proof fn lemma_edge_fields(e: Edge)
    ensures
        joins(edge_json(e), e.0, e.1),
        text_at(edge_json(e), "source"@) == e.0,
        text_at(edge_json(e), "target"@) == e.1,
{
    reveal_strlit("source");
    reveal_strlit("target");
    assert("source"@.len() == 6);
    assert("target"@.len() == 6);
    assert("source"@[0] == 's');
    assert("target"@[0] == 't');
}

proof fn lemma_node_fields(p: PageRow, edges: Seq<Edge>)
    ensures
        ({
            let node = node_json(p, edges);
            &&& field(node, "id"@) == Some(JsonView::Str(p.document_id@))
            &&& field(node, "title"@) == Some(JsonView::Str(p.title@))
            &&& field(node, "type"@) == Some(JsonView::Str(short_type(p.source_type@)))
            &&& field(node, "url"@) == Some(JsonView::Str(p.url@))
            &&& field(node, "updated_at"@) == Some(JsonView::Str(iso_text(p.updated_at)))
            &&& field(node, "degree"@) == Some(
                JsonView::Int(degree_of(edges, p.document_id@) as int),
            )
            &&& field(node, "backlinks"@) == Some(
                JsonView::Array(string_items(backlinks_of(edges, p.document_id@))),
            )
        }),
{
    let base = map![
        "id"@ => JsonView::Str(p.document_id@),
        "title"@ => JsonView::Str(p.title@),
        "type"@ => JsonView::Str(short_type(p.source_type@)),
        "url"@ => JsonView::Str(p.url@),
        "updated_at"@ => JsonView::Str(iso_text(p.updated_at)),
    ];
    reveal_strlit("id");
    reveal_strlit("title");
    reveal_strlit("type");
    reveal_strlit("url");
    reveal_strlit("updated_at");
    reveal_strlit("degree");
    reveal_strlit("backlinks");
    assert("id"@.len() == 2);
    assert("title"@.len() == 5);
    assert("type"@.len() == 4);
    assert("url"@.len() == 3);
    assert("updated_at"@.len() == 10);
    assert("degree"@.len() == 6);
    assert("backlinks"@.len() == 9);
    law_common_names_are_no_tags();
    law_tags_hold_what_page_has(base, p, "id"@);
    law_tags_hold_what_page_has(base, p, "title"@);
    law_tags_hold_what_page_has(base, p, "type"@);
    law_tags_hold_what_page_has(base, p, "url"@);
    law_tags_hold_what_page_has(base, p, "updated_at"@);
}

/// Every link in a body that names another page is an edge of the graph: the page is the last one
/// whose title is what stands before the link's bar, in any case and without the white space around
/// it.
pub proof fn law_every_link_is_an_edge(pages: Seq<PageRow>, i: int, j: int, k: int)
    requires
        0 <= i < pages.len(),
        0 <= j < pages.len(),
        0 <= k < links_in(pages[i].body@).len(),
        lowercase(trimmed(before_char(links_in(pages[i].body@)[k], '|'))) == lowercase(
            trimmed(pages[j].title@),
        ),
        forall|n: int|
            j < n < pages.len() ==> lowercase(trimmed((#[trigger] pages[n]).title@)) != lowercase(
                trimmed(pages[j].title@),
            ),
        pages[i].document_id@ != pages[j].document_id@,
    ensures
        exists|n: int|
            0 <= n < listed_edges(graph_of(pages)).len() && joins(
                #[trigger] listed_edges(graph_of(pages))[n],
                pages[i].document_id@,
                pages[j].document_id@,
            ),
        edges_of(pages.map_values(|p: PageRow| linked_page(p))).contains(
            (pages[i].document_id@, pages[j].document_id@),
        ),
{
    let all = pages.map_values(|p: PageRow| linked_page(p));
    let key = all[j].key;
    assert forall|n: int| j < n < all.len() implies (#[trigger] all[n]).key != key by {
        assert(all[n] == linked_page(pages[n]));
    }
    law_key_leads_to_last(all, key, j);
    let e = (pages[i].document_id@, pages[j].document_id@);
    assert(all[i].links[k] == key);
    assert(links_to(all, all[i], e.1));
    assert(all[i].id == e.0);
    law_edges(all, e);
    let edges = edges_of(all);
    let n = edges.index_of(e);
    lemma_graph_fields(pages, edges);
    lemma_edge_fields(e);
    assert(listed_edges(graph_of(pages))[n] == edge_json(edges[n]));
}

/// A link written into a body as the title of another page leads to that page: the graph has the
/// edge, and the other page lists the first among its backlinks. It does so with or without a text
/// shown for it behind a bar, and where several pages have the title, it leads to the last one.
pub proof fn law_written_title_leads_to_page(
    pages: Seq<PageRow>,
    i: int,
    j: int,
    before: Seq<char>,
    shown: Option<Seq<char>>,
    after: Seq<char>,
)
    requires
        0 <= i < pages.len(),
        0 <= j < pages.len(),
        pages[i].document_id@ != pages[j].document_id@,
        forall|n: int|
            j < n < pages.len() ==> lowercase(trimmed((#[trigger] pages[n]).title@)) != lowercase(
                trimmed(pages[j].title@),
            ),
        pages[j].title@.len() > 0,
        !pages[j].title@.contains('|'),
        !pages[j].title@.contains(']'),
        shown matches Some(s) ==> !s.contains(']'),
        opens_nothing(before),
        pages[i].body@ == before + seq!['[', '['] + (match shown {
            Some(s) => pages[j].title@ + seq!['|'] + s,
            None => pages[j].title@,
        }) + seq![']', ']'] + after,
    ensures
        exists|n: int|
            0 <= n < listed_edges(graph_of(pages)).len() && joins(
                #[trigger] listed_edges(graph_of(pages))[n],
                pages[i].document_id@,
                pages[j].document_id@,
            ),
        items_of(field(listed_nodes(graph_of(pages))[j], "backlinks"@)).contains(
            JsonView::Str(pages[i].document_id@),
        ),
{
    let title = pages[j].title@;
    let link = match shown {
        Some(s) => title + seq!['|'] + s,
        None => title,
    };
    if let Some(s) = shown {
        law_parts_around(title, '|', s);
        assert forall|n: int| 0 <= n < link.len() implies link[n] != ']' by {
            if n < title.len() {
                assert(title[n] == link[n]);
            } else if n > title.len() {
                assert(s[n - title.len() - 1] == link[n]);
            }
        }
    } else {
        law_parts_around(title, '|', Seq::empty());
    }
    law_written_link_is_found(before, link, after);
    assert(links_in(pages[i].body@)[0] == link);
    law_every_link_is_an_edge(pages, i, j, 0);
    let edges = edges_of(pages.map_values(|p: PageRow| linked_page(p)));
    lemma_graph_fields(pages, edges);
    lemma_node_fields(pages[j], edges);
    let source = pages[i].document_id@;
    let target = pages[j].document_id@;
    law_backlinks(edges, target, source);
    let list = backlinks_of(edges, target);
    let n = list.index_of(source);
    assert(string_items(list)[n] == JsonView::Str(source));
}

/// Every edge of the graph comes from a link: in the body of its source there is a link whose text
/// before the bar is the title of its target, in any case and without the white space around it. No
/// edge leads from a page to itself.
pub proof fn law_every_edge_is_a_link(pages: Seq<PageRow>, n: int) -> (at: (int, int, int))
    requires
        0 <= n < listed_edges(graph_of(pages)).len(),
    ensures
        0 <= at.0 < pages.len(),
        0 <= at.1 < pages.len(),
        0 <= at.2 < links_in(pages[at.0].body@).len(),
        joins(
            listed_edges(graph_of(pages))[n],
            pages[at.0].document_id@,
            pages[at.1].document_id@,
        ),
        lowercase(trimmed(before_char(links_in(pages[at.0].body@)[at.2], '|'))) == lowercase(
            trimmed(pages[at.1].title@),
        ),
        pages[at.0].document_id@ != pages[at.1].document_id@,
{
    let all = pages.map_values(|p: PageRow| linked_page(p));
    let edges = edges_of(all);
    lemma_graph_fields(pages, edges);
    let e = edges[n];
    assert(edges.contains(e));
    law_edges(all, e);
    lemma_edge_fields(e);
    let i = choose|i: int|
        0 <= i < all.len() && (#[trigger] all[i]).id == e.0 && links_to(all, all[i], e.1);
    let k = choose|k: int|
        0 <= k < all[i].links.len() && target_of(all, #[trigger] all[i].links[k]) == Some(e.1);
    lemma_target(all, all[i].links[k]);
    let j = choose|j: int|
        0 <= j < all.len() && (#[trigger] all[j]).id == e.1 && all[j].key == all[i].links[k];
    assert(all[i] == linked_page(pages[i]));
    assert(all[j] == linked_page(pages[j]));
    (i, j, k)
}

/// How many ends of listed edges are at the page `id`.
pub open spec fn ends_at(edges: Seq<JsonView>, id: Seq<char>) -> nat {
    edges.filter(|e: JsonView| text_at(e, "source"@) == id).len() + edges.filter(
        |e: JsonView| text_at(e, "target"@) == id,
    ).len()
}

proof fn lemma_ends(edges: Seq<Edge>, id: Seq<char>)
    ensures
        degree_of(edges, id) == ends_at(edges.map_values(|e: Edge| edge_json(e)), id),
    decreases edges.len(),
{
    reveal(Seq::filter);
    let shown = edges.map_values(|e: Edge| edge_json(e));
    if edges.len() > 0 {
        lemma_ends(edges.drop_last(), id);
        lemma_edge_fields(edges.last());
        assert(shown.drop_last() =~= edges.drop_last().map_values(|e: Edge| edge_json(e)));
        assert(shown.last() == edge_json(edges.last()));
    }
}

/// A graph has a node for each page, in their order, with what is stored of the page, and tells how
/// many nodes and edges it lists. No edge is listed twice. The degree of a node is the number of
/// ends of listed edges at it, and its backlinks are the sources of the listed edges to it, each
/// once and in the order of their ids.
pub proof fn law_graph_tells_of_pages(pages: Seq<PageRow>, i: int, source: Seq<char>)
    requires
        0 <= i < pages.len(),
    ensures
        ({
            let g = graph_of(pages);
            let nodes = listed_nodes(g);
            let edges = listed_edges(g);
            let id = pages[i].document_id@;
            let backlinks = items_of(field(nodes[i], "backlinks"@));
            &&& nodes.len() == pages.len()
            &&& field(g, "node_count"@) == Some(JsonView::Int(pages.len() as int))
            &&& field(g, "edge_count"@) == Some(JsonView::Int(edges.len() as int))
            &&& field(nodes[i], "id"@) == Some(JsonView::Str(id))
            &&& field(nodes[i], "title"@) == Some(JsonView::Str(pages[i].title@))
            &&& field(nodes[i], "type"@) == Some(JsonView::Str(short_type(pages[i].source_type@)))
            &&& field(nodes[i], "url"@) == Some(JsonView::Str(pages[i].url@))
            &&& field(nodes[i], "updated_at"@) == Some(
                JsonView::Str(iso_text(pages[i].updated_at)),
            )
            &&& field(nodes[i], "degree"@) == Some(JsonView::Int(ends_at(edges, id) as int))
            &&& backlinks.contains(JsonView::Str(source)) <==> exists|n: int|
                0 <= n < edges.len() && joins(#[trigger] edges[n], source, id)
            &&& forall|a: int, b: int|
                0 <= a < b < backlinks.len() ==> precedes(
                    text_value(Some(#[trigger] backlinks[a]))->0,
                    text_value(Some(#[trigger] backlinks[b]))->0,
                )
            &&& forall|a: int, b: int|
                0 <= a < b < edges.len() ==> #[trigger] edges[a] != #[trigger] edges[b]
        }),
{
    let all = pages.map_values(|p: PageRow| linked_page(p));
    let edges = edges_of(all);
    let shown = edges.map_values(|e: Edge| edge_json(e));
    let id = pages[i].document_id@;
    lemma_graph_fields(pages, edges);
    lemma_node_fields(pages[i], edges);
    lemma_ends(edges, id);
    law_edges(all, (source, id));
    law_backlinks(edges, id, source);
    let list = backlinks_of(edges, id);
    let backlinks = string_items(list);
    assert forall|n: int| 0 <= n < edges.len() implies joins(
        #[trigger] shown[n],
        edges[n].0,
        edges[n].1,
    ) by {
        lemma_edge_fields(edges[n]);
    }
    if list.contains(source) {
        let n = edges.index_of((source, id));
        assert(joins(shown[n], source, id));
        assert(backlinks[list.index_of(source)] == JsonView::Str(source));
    }
    if backlinks.contains(JsonView::Str(source)) {
        let k = backlinks.index_of(JsonView::Str(source));
        assert(list[k] == source);
    }
    if exists|n: int| 0 <= n < shown.len() && joins(#[trigger] shown[n], source, id) {
        let n = choose|n: int| 0 <= n < shown.len() && joins(#[trigger] shown[n], source, id);
        assert(edges[n] == (source, id));
        assert(edges.contains((source, id)));
        assert(backlinks[list.index_of(source)] == JsonView::Str(source));
    }
    assert forall|a: int, b: int| 0 <= a < b < backlinks.len() implies precedes(
        text_value(Some(#[trigger] backlinks[a]))->0,
        text_value(Some(#[trigger] backlinks[b]))->0,
    ) by {
        assert(precedes(list[a], list[b]));
    }
    assert forall|a: int, b: int| 0 <= a < b < shown.len() implies #[trigger] shown[a]
        != #[trigger] shown[b] by {
        assert(edges[a] != edges[b]);
    }
}

/// A node has the fields of a goal, an entry of the glossary or a contributor where its page is one.
pub proof fn law_node_has_tags(pages: Seq<PageRow>, i: int)
    requires
        0 <= i < pages.len(),
    ensures
        ({
            let p = pages[i];
            let node = listed_nodes(graph_of(pages))[i];
            let goal = p.source_type@ == "wiki_goal"@ && p.goal_kind@.len() > 0;
            let entry = p.glossary@ == "true"@;
            let person = p.person@ == "true"@;
            &&& goal ==> field(node, "goal_kind"@) == Some(JsonView::Str(p.goal_kind@))
            &&& !goal ==> field(node, "goal_kind"@) is None
            &&& entry ==> {
                &&& field(node, "glossary"@) == Some(JsonView::Bool(true))
                &&& field(node, "term"@) == Some(JsonView::Str(p.term@))
                &&& field(node, "definition"@) == Some(JsonView::Str(p.definition@))
            }
            &&& !entry ==> field(node, "glossary"@) is None && field(node, "term"@) is None
                && field(node, "definition"@) is None
            &&& person ==> {
                &&& field(node, "person"@) == Some(JsonView::Bool(true))
                &&& field(node, "display_name"@) == Some(JsonView::Str(p.display_name@))
                &&& field(node, "github_login"@) == Some(JsonView::Str(p.github_login@))
                &&& field(node, "roles"@) == Some(JsonView::Str(p.roles@))
                &&& field(node, "bio"@) == Some(JsonView::Str(p.bio@))
                &&& field(node, "last_active"@) == Some(JsonView::Str(p.last_active@))
                &&& field(node, "active"@) == Some(JsonView::Bool(p.active@ == "true"@))
            }
            &&& !person ==> field(node, "person"@) is None && field(node, "display_name"@) is None
        }),
{
    let p = pages[i];
    let edges = edges_of(pages.map_values(|p: PageRow| linked_page(p)));
    lemma_graph_fields(pages, edges);
    let base = map![
        "id"@ => JsonView::Str(p.document_id@),
        "title"@ => JsonView::Str(p.title@),
        "type"@ => JsonView::Str(short_type(p.source_type@)),
        "url"@ => JsonView::Str(p.url@),
        "updated_at"@ => JsonView::Str(iso_text(p.updated_at)),
    ];
    reveal_strlit("id");
    reveal_strlit("title");
    reveal_strlit("type");
    reveal_strlit("url");
    reveal_strlit("updated_at");
    reveal_strlit("degree");
    reveal_strlit("backlinks");
    reveal_strlit("goal_kind");
    reveal_strlit("glossary");
    reveal_strlit("term");
    reveal_strlit("definition");
    reveal_strlit("person");
    reveal_strlit("display_name");
    reveal_strlit("github_login");
    reveal_strlit("roles");
    reveal_strlit("bio");
    reveal_strlit("last_active");
    reveal_strlit("active");
    assert("id"@.len() == 2);
    assert("title"@.len() == 5);
    assert("type"@.len() == 4);
    assert("url"@.len() == 3);
    assert("updated_at"@.len() == 10);
    assert("degree"@.len() == 6);
    assert("backlinks"@.len() == 9);
    assert("goal_kind"@.len() == 9);
    assert("glossary"@.len() == 8);
    assert("term"@.len() == 4);
    assert("definition"@.len() == 10);
    assert("person"@.len() == 6);
    assert("display_name"@.len() == 12);
    assert("github_login"@.len() == 12);
    assert("roles"@.len() == 5);
    assert("bio"@.len() == 3);
    assert("last_active"@.len() == 11);
    assert("active"@.len() == 6);
    assert("title"@[0] == 't');
    assert("roles"@[0] == 'r');
    assert("type"@[1] == 'y');
    assert("term"@[1] == 'e');
    assert("url"@[0] == 'u');
    assert("bio"@[0] == 'b');
    assert("updated_at"@[0] == 'u');
    assert("definition"@[0] == 'd');
    assert("degree"@[0] == 'd');
    assert("person"@[0] == 'p');
    assert("active"@[0] == 'a');
    assert("backlinks"@[0] == 'b');
    assert("goal_kind"@[0] == 'g');
    assert("display_name"@[0] == 'd');
    assert("github_login"@[0] == 'g');
    law_tags_hold_what_page_has(base, p, "goal_kind"@);
    law_tags_hold_what_page_has(base, p, "glossary"@);
    law_tags_hold_what_page_has(base, p, "term"@);
    law_tags_hold_what_page_has(base, p, "definition"@);
    law_tags_hold_what_page_has(base, p, "person"@);
    law_tags_hold_what_page_has(base, p, "display_name"@);
}

/// A single bracket closes a link; a link of nothing is none, and the search goes on behind it; and
/// a link that nothing closes ends the search.
pub proof fn law_brackets_close_links(before: Seq<char>, link: Seq<char>, after: Seq<char>)
    requires
        opens_nothing(before),
        !link.contains(']'),
    ensures
        link.len() > 0 ==> links_in(before + seq!['[', '['] + link + seq![']'] + after) == seq![
            link,
        ] + links_in(after),
        link.len() == 0 ==> links_in(before + seq!['[', '['] + link + seq![']'] + after)
            == links_in(after),
        links_in(before + seq!['[', '['] + link).len() == 0,
        links_in(before).len() == 0,
{
    let written = seq!['[', '['] + link + seq![']'] + after;
    law_text_without_links_adds_none(before, written);
    assert(before + seq!['[', '['] + link + seq![']'] + after =~= before + written);
    let inside = written.skip(2);
    assert(inside =~= link + seq![']'] + after);
    lemma_first_index(inside, ']');
    assert(inside[link.len() as int] == ']');
    let end = first_index(inside, ']');
    if end < link.len() {
        assert(link[end] == ']');
    }
    assert(inside.take(end) =~= link);
    assert(inside.skip(end + 1) =~= after);
    let open = seq!['[', '['] + link;
    law_text_without_links_adds_none(before, open);
    assert(before + seq!['[', '['] + link =~= before + open);
    assert(open.skip(2) =~= link);
    lemma_first_index(link, ']');
    if first_index(link, ']') < link.len() {
        assert(link[first_index(link, ']')] == ']');
    }
    law_text_without_links_adds_none(before, Seq::empty());
    assert(before + Seq::<char>::empty() =~= before);
}

/// Whether the link at `k` of the page at `i` is one for the edge `e`.
pub open spec fn links_for(pages: Seq<LinkedPage>, i: int, k: int, e: Edge) -> bool {
    &&& 0 <= i < pages.len()
    &&& 0 <= k < pages[i].links.len()
    &&& pages[i].id == e.0
    &&& target_of(pages, pages[i].links[k]) == Some(e.1)
    &&& e.0 != e.1
}

/// Whether the link at `k` of the page at `i` stands before the link at `m` of the page at `j`.
pub open spec fn stands_before(i: int, k: int, j: int, m: int) -> bool {
    i < j || (i == j && k < m)
}

proof fn lemma_page_spot(
    pages: Seq<LinkedPage>,
    id: Seq<char>,
    links: Seq<Seq<char>>,
    k: int,
    m: int,
)
    requires
        0 <= k <= m <= links.len(),
    ensures
        page_edges(pages, id, links.take(k)).len() <= page_edges(
            pages,
            id,
            links.take(m),
        ).len(),
        page_edges(pages, id, links.take(m)).take(
            page_edges(pages, id, links.take(k)).len() as int,
        ) == page_edges(pages, id, links.take(k)),
        k < m && target_of(pages, links[k]) is Some && target_of(pages, links[k])->0 != id ==> {
            &&& page_edges(pages, id, links.take(k)).len() < page_edges(
                pages,
                id,
                links.take(m),
            ).len()
            &&& page_edges(pages, id, links.take(m))[page_edges(
                pages,
                id,
                links.take(k),
            ).len() as int] == (id, target_of(pages, links[k])->0)
        },
    decreases m,
{
    let first = page_edges(pages, id, links.take(k));
    let all = page_edges(pages, id, links.take(m));
    if k < m {
        lemma_page_spot(pages, id, links, k, m - 1);
        assert(links.take(m).drop_last() =~= links.take(m - 1));
        let less = page_edges(pages, id, links.take(m - 1));
        assert(all.take(first.len() as int) =~= less.take(first.len() as int));
    } else {
        assert(all.take(first.len() as int) =~= first);
    }
}

proof fn lemma_page_index(
    pages: Seq<LinkedPage>,
    id: Seq<char>,
    links: Seq<Seq<char>>,
    p: int,
) -> (k: int)
    requires
        0 <= p < page_edges(pages, id, links).len(),
    ensures
        0 <= k < links.len(),
        page_edges(pages, id, links.take(k)).len() == p,
        target_of(pages, links[k]) == Some(page_edges(pages, id, links)[p].1),
        page_edges(pages, id, links)[p].0 == id,
        page_edges(pages, id, links)[p].1 != id,
    decreases links.len(),
{
    let rest = links.drop_last();
    let before = page_edges(pages, id, rest);
    if p < before.len() {
        let k = lemma_page_index(pages, id, rest, p);
        assert(rest.take(k) =~= links.take(k));
        k
    } else {
        assert(links.take(links.len() - 1) =~= rest);
        links.len() - 1
    }
}

proof fn lemma_all_spot(pages: Seq<LinkedPage>, from: Seq<LinkedPage>, i: int, j: int)
    requires
        0 <= i < j <= from.len(),
    ensures
        ({
            let start = all_edges(pages, from.take(i)).len();
            let own = page_edges(pages, from[i].id, from[i].links);
            let all = all_edges(pages, from.take(j));
            &&& start + own.len() <= all.len()
            &&& forall|r: int| 0 <= r < own.len() ==> #[trigger] own[r] == all[start + r]
        }),
    decreases j,
{
    assert(from.take(j).drop_last() =~= from.take(j - 1));
    assert(from.take(j).last() == from[j - 1]);
    if i < j - 1 {
        lemma_all_spot(pages, from, i, j - 1);
    }
}

proof fn lemma_all_index(pages: Seq<LinkedPage>, from: Seq<LinkedPage>, p: int) -> (at: (int, int))
    requires
        0 <= p < all_edges(pages, from).len(),
    ensures
        0 <= at.0 < from.len(),
        0 <= at.1 < from[at.0].links.len(),
        p == all_edges(pages, from.take(at.0)).len() + page_edges(
            pages,
            from[at.0].id,
            from[at.0].links.take(at.1),
        ).len(),
        target_of(pages, from[at.0].links[at.1]) == Some(all_edges(pages, from)[p].1),
        from[at.0].id == all_edges(pages, from)[p].0,
        all_edges(pages, from)[p].0 != all_edges(pages, from)[p].1,
    decreases from.len(),
{
    let rest = from.drop_last();
    let before = all_edges(pages, rest);
    if p < before.len() {
        let at = lemma_all_index(pages, rest, p);
        assert(rest.take(at.0) =~= from.take(at.0));
        assert(rest[at.0] == from[at.0]);
        at
    } else {
        let last = from.last();
        let k = lemma_page_index(pages, last.id, last.links, p - before.len());
        assert(from.take(from.len() - 1) =~= rest);
        (from.len() - 1, k)
    }
}

proof fn lemma_first_comes_first(s: Seq<Edge>, n: int, m: int) -> (p: int)
    requires
        0 <= n < m < first_of_each(s).len(),
    ensures
        0 <= p < s.len(),
        s[p] == first_of_each(s)[n],
        forall|q: int| 0 <= q < s.len() && s[q] == first_of_each(s)[m] ==> p < q,
    decreases s.len(),
{
    let rest = s.drop_last();
    let before = first_of_each(rest);
    let all = first_of_each(s);
    lemma_first_of_each(rest);
    if m < before.len() {
        let p = lemma_first_comes_first(rest, n, m);
        assert forall|q: int| 0 <= q < s.len() && s[q] == all[m] implies p < q by {
            if q < rest.len() {
                assert(rest[q] == s[q]);
            }
        }
        p
    } else {
        assert(before.contains(before[n]));
        let p = rest.index_of(before[n]);
        assert forall|q: int| 0 <= q < s.len() && s[q] == all[m] implies p < q by {
            if q < rest.len() {
                assert(rest[q] == s[q]);
                assert(rest.contains(s[q]));
                assert(before.contains(all[m]));
            }
        }
        p
    }
}

/// Edges are listed in the order in which links for them first stand, page by page: before any link
/// for a later edge there is one for the earlier.
pub proof fn law_edges_are_in_order(pages: Seq<LinkedPage>, n: int, m: int)
    requires
        0 <= n < m < edges_of(pages).len(),
    ensures
        exists|i: int, k: int| #[trigger]
            links_for(pages, i, k, edges_of(pages)[n]) && forall|j: int, l: int| #[trigger]
                links_for(pages, j, l, edges_of(pages)[m]) ==> stands_before(i, k, j, l),
{
    let s = all_edges(pages, pages);
    let p = lemma_first_comes_first(s, n, m);
    let (i, k) = lemma_all_index(pages, pages, p);
    let a = edges_of(pages)[n];
    let b = edges_of(pages)[m];
    assert(links_for(pages, i, k, a));
    assert forall|j: int, l: int| #[trigger] links_for(pages, j, l, b) implies stands_before(
        i,
        k,
        j,
        l,
    ) by {
        let own = page_edges(pages, pages[j].id, pages[j].links);
        let start = all_edges(pages, pages.take(j)).len() as int;
        assert(pages.take(pages.len() as int) =~= pages);
        assert(pages[j].links.take(pages[j].links.len() as int) =~= pages[j].links);
        lemma_all_spot(pages, pages, j, pages.len() as int);
        lemma_page_spot(
            pages,
            pages[j].id,
            pages[j].links,
            l,
            pages[j].links.len() as int,
        );
        let r = page_edges(pages, pages[j].id, pages[j].links.take(l)).len() as int;
        let q = start + r;
        assert(own[r] == b);
        assert(s[q] == b);
        assert(p < q);
        if j < i {
            lemma_all_spot(pages, pages, j, i);
        } else if j == i && l <= k {
            lemma_page_spot(pages, pages[j].id, pages[j].links, l, k);
        }
    }
}

/// A page as the graph sees it, by the texts that it holds.
pub proof fn law_linked_page_is_its_texts(page: PageLinks, pages: Seq<PageLinks>, i: int)
    ensures
        page@.id == page.id@,
        page@.key == page.key@,
        page@.links.len() == page.links@.len(),
        0 <= i < page.links@.len() ==> page@.links[i] == page.links@[i]@,
        linked(pages).len() == pages.len(),
        0 <= i < pages.len() ==> linked(pages)[i] == pages[i]@,
{
}

/// An edge is that of its two texts.
pub proof fn law_edge_is_its_texts(edges: Seq<(String, String)>, i: int)
    ensures
        edge_views(edges).len() == edges.len(),
        0 <= i < edges.len() ==> edge_views(edges)[i].0 == edges[i].0@ && edge_views(edges)[i].1
            == edges[i].1@,
{
}

} // verus!
