use centaur_wiki::clock::Timestamp;
use centaur_wiki::graph::{backlinks, degree, link_graph, link_pages, wiki_graph, wikilinks};
use centaur_wiki::json::Json;
use centaur_wiki::page::PageRow;
use serde_json::Value;

fn value(json: &Json) -> Value {
    match json {
        Json::Null => Value::Null,
        Json::Bool(b) => Value::Bool(*b),
        Json::Int(n) => Value::from(i64::try_from(*n).unwrap()),
        Json::Float(bits) => Value::from(f64::from_bits(*bits)),
        Json::Str(s) => Value::from(s.as_str()),
        Json::Array(items) => Value::Array(items.iter().map(value).collect()),
        Json::Object(fields) => {
            Value::Object(fields.iter().map(|(k, v)| (k.clone(), value(v))).collect())
        }
    }
}

fn parsed(text: &str) -> Value {
    serde_json::from_str(text).unwrap()
}

fn page(id: &str, title: &str, body: &str) -> PageRow {
    PageRow {
        document_id: id.to_owned(),
        source_type: "wiki_topic".to_owned(),
        title: title.to_owned(),
        body: body.to_owned(),
        url: String::new(),
        updated_at: None,
        goal_kind: String::new(),
        glossary: String::new(),
        term: String::new(),
        definition: String::new(),
        person: String::new(),
        display_name: String::new(),
        github_login: String::new(),
        roles: String::new(),
        bio: String::new(),
        last_active: String::new(),
        active: String::new(),
    }
}

fn edges(pages: &Vec<PageRow>) -> Vec<(String, String)> {
    link_graph(&link_pages(pages))
}

fn pair(a: &str, b: &str) -> (String, String) {
    (a.to_owned(), b.to_owned())
}

#[test]
fn links_are_found_in_their_order() {
    assert_eq!(wikilinks("see [[One]] and [[Two|2]]."), ["One", "Two|2"]);
    assert_eq!(wikilinks("[[a]][[b]]"), ["a", "b"]);
    assert_eq!(wikilinks("[[é]]"), ["é"]);
}

#[test]
fn text_that_opens_no_link_adds_none() {
    for before in ["", "plain ", "[a] ", "a[b", "]] "] {
        for after in ["", "x", "[[Two]]", "]", "[[open"] {
            let rest = wikilinks(after);
            assert_eq!(wikilinks(&format!("{before}{after}")), rest);
            let mut all = vec!["One".to_owned()];
            all.extend(rest);
            assert_eq!(wikilinks(&format!("{before}[[One]]{after}")), all);
        }
    }
}

#[test]
fn broken_links_are_left_out() {
    assert_eq!(wikilinks(""), Vec::<String>::new());
    assert_eq!(wikilinks("[["), Vec::<String>::new());
    assert_eq!(wikilinks("[[]]"), Vec::<String>::new());
    assert_eq!(wikilinks("[[open"), Vec::<String>::new());
    assert_eq!(wikilinks("[one] [[two]"), ["two"]);
    assert_eq!(wikilinks("[[[x]]"), ["[x"]);
    assert_eq!(wikilinks("[[] [[y]]"), ["y"]);
}

#[test]
fn links_lead_to_pages_by_title_whatever_the_case() {
    let pages = vec![
        page("a", "Alpha", "[[ BETA | the second ]] [[beta]] [[nowhere]] [[Alpha]]"),
        page("b", " Beta ", "[[alpha]]"),
        page("c", "ÉCOLE", "[[beta]]"),
        page("d", "Delta", "[[école]]"),
    ];
    assert_eq!(
        edges(&pages),
        [pair("a", "b"), pair("b", "a"), pair("c", "b"), pair("d", "c")]
    );
}

#[test]
fn the_last_page_of_a_title_is_its_target() {
    let pages = vec![page("a", "T", ""), page("b", "t", ""), page("c", "C", "[[T]]")];
    assert_eq!(edges(&pages), [pair("c", "b")]);
}

#[test]
fn degrees_count_both_ends_and_backlinks_are_sorted() {
    let e = vec![pair("z", "x"), pair("a", "x"), pair("x", "a"), pair("a", "x")];
    assert_eq!(degree(&e, "x"), 4);
    assert_eq!(degree(&e, "z"), 1);
    assert_eq!(degree(&e, "none"), 0);
    assert_eq!(backlinks(&e, "x"), ["a", "z"]);
    assert_eq!(backlinks(&e, "z"), Vec::<String>::new());
}

#[test]
fn degrees_add_up_to_twice_the_edges() {
    let pages = vec![
        page("a", "A", "[[b]] [[c]] [[a]]"),
        page("b", "B", "[[a]] [[a]]"),
        page("c", "C", "[[b]]"),
    ];
    let e = edges(&pages);
    let sum: u128 = ["a", "b", "c"].iter().map(|id| degree(&e, id)).sum();
    assert_eq!(sum, 2 * e.len() as u128);
    assert_eq!(e.len(), 4);
}

#[test]
fn the_report_lists_nodes_and_edges() {
    let mut a = page("a", "A", "[[b]]");
    a.updated_at = Some(Timestamp { local_nanos: 0, offset_seconds: 0 });
    a.url = "u".to_owned();
    let mut b = page("b", "B", "");
    b.source_type = "wiki_goal".to_owned();
    b.goal_kind = "north star".to_owned();
    b.glossary = "true".to_owned();
    b.term = "t".to_owned();
    b.definition = "d".to_owned();
    assert_eq!(
        value(&wiki_graph(&vec![a, b])),
        parsed(
            r#"{
                "node_count": 2,
                "edge_count": 1,
                "nodes": [
                    {"id": "a", "title": "A", "type": "topic", "url": "u",
                     "updated_at": "1970-01-01T00:00:00Z", "degree": 1, "backlinks": []},
                    {"id": "b", "title": "B", "type": "goal", "url": "", "updated_at": "",
                     "goal_kind": "north star", "glossary": true, "term": "t", "definition": "d",
                     "degree": 1, "backlinks": ["a"]}
                ],
                "edges": [{"source": "a", "target": "b"}]
            }"#
        )
    );
}

#[test]
fn an_empty_wiki_has_an_empty_graph() {
    assert_eq!(
        value(&wiki_graph(&Vec::new())),
        parsed(r#"{"node_count": 0, "edge_count": 0, "nodes": [], "edges": []}"#)
    );
}
