//! Single pages and their revisions.
use crate::clock::{iso, iso_text, Timestamp};
use crate::error::{no_such_page, outcome, page_not_found, ApiError, ApiErrorView};
use crate::json::{append, array_view, field, items_of, object_view, put, put_text, Json, JsonView};
use crate::text::{chars_of, find, first_match, law_first_match, same, strip_suffix, text_of};
use vstd::prelude::*;
use vstd::string::*;

verus! {

/// A page as the table of documents holds it. A text that the table lacks is empty.
#[derive(Debug, PartialEq, Eq)]
pub struct PageRow {
    pub document_id: String,
    pub source_type: String,
    pub title: String,
    pub body: String,
    pub url: String,
    pub updated_at: Option<Timestamp>,
    /// What sort of goal a goal page states.
    pub goal_kind: String,
    /// `true` on an entry of the glossary, which has a term and a definition.
    pub glossary: String,
    pub term: String,
    pub definition: String,
    /// `true` on the page of a contributor, which has what follows.
    pub person: String,
    pub display_name: String,
    pub github_login: String,
    pub roles: String,
    pub bio: String,
    pub last_active: String,
    pub active: String,
}

/// `s` without the first occurrence of `p` in it.
pub open spec fn without_first(s: Seq<char>, p: Seq<char>) -> Seq<char> {
    match first_match(s, p) {
        Some(i) => s.take(i) + s.skip(i + p.len()),
        None => s,
    }
}

/// The short name of a page type: the stored one without its first `wiki_`.
pub open spec fn short_type(source_type: Seq<char>) -> Seq<char> {
    without_first(source_type, "wiki_"@)
}

/// The short name of a page type.
pub fn strip_wiki_prefix(source_type: &str) -> (r: String)
    ensures
        r@ == short_type(source_type@),
{
    let chars = chars_of(source_type);
    let prefix = chars_of("wiki_");
    match find(&chars, &prefix) {
        Some(i) => {
            let mut out = text_of(&chars, 0, i);
            let end = chars.len();
            let rest = text_of(&chars, i + prefix.len(), end);
            out.append(rest.as_str());
            proof {
                assert(chars@.take(i as int) =~= chars@.subrange(0, i as int));
                assert(chars@.skip(i + prefix@.len()) =~= chars@.subrange(
                    i + prefix@.len(),
                    chars@.len() as int,
                ));
            }
            out
        },
        None => source_type.to_owned(),
    }
}

/// A stored page type loses its prefix.
pub proof fn law_short_type(name: Seq<char>)
    ensures
        short_type("wiki_"@ + name) == name,
{
    let stored = "wiki_"@ + name;
    assert(stored.subrange(0, "wiki_"@.len() as int) =~= "wiki_"@);
    assert(stored.take(0) + stored.skip(0 + "wiki_"@.len() as int) =~= name);
}

/// The fields of a page that only some pages have: the kind of a goal, the term and the
/// definition of a glossary entry, and what is known of a contributor.
pub open spec fn with_tags(
    fields: Map<Seq<char>, JsonView>,
    p: PageRow,
) -> Map<Seq<char>, JsonView> {
    let fields = if p.source_type@ == "wiki_goal"@ && p.goal_kind@.len() > 0 {
        fields.insert("goal_kind"@, JsonView::Str(p.goal_kind@))
    } else {
        fields
    };
    let fields = if p.glossary@ == "true"@ {
        fields.insert("glossary"@, JsonView::Bool(true)).insert(
            "term"@,
            JsonView::Str(p.term@),
        ).insert("definition"@, JsonView::Str(p.definition@))
    } else {
        fields
    };
    if p.person@ == "true"@ {
        fields.insert("person"@, JsonView::Bool(true)).insert(
            "display_name"@,
            JsonView::Str(p.display_name@),
        ).insert("github_login"@, JsonView::Str(p.github_login@)).insert(
            "roles"@,
            JsonView::Str(p.roles@),
        ).insert("bio"@, JsonView::Str(p.bio@)).insert(
            "last_active"@,
            JsonView::Str(p.last_active@),
        ).insert("active"@, JsonView::Bool(p.active@ == "true"@))
    } else {
        fields
    }
}

/// Adds the fields that only some pages have.
pub fn add_tags(fields: &mut Vec<(String, Json)>, p: &PageRow)
    ensures
        object_view(final(fields)@) == with_tags(object_view(old(fields)@), *p),
{
    if same(p.source_type.as_str(), "wiki_goal") && !p.goal_kind.as_str().is_empty() {
        put_text(fields, "goal_kind", p.goal_kind.as_str());
    }
    if same(p.glossary.as_str(), "true") {
        put(fields, "glossary", Json::Bool(true));
        put_text(fields, "term", p.term.as_str());
        put_text(fields, "definition", p.definition.as_str());
    }
    if same(p.person.as_str(), "true") {
        put(fields, "person", Json::Bool(true));
        put_text(fields, "display_name", p.display_name.as_str());
        put_text(fields, "github_login", p.github_login.as_str());
        put_text(fields, "roles", p.roles.as_str());
        put_text(fields, "bio", p.bio.as_str());
        put_text(fields, "last_active", p.last_active.as_str());
        put(fields, "active", Json::Bool(same(p.active.as_str(), "true")));
    }
}

/// A page in full.
pub open spec fn page_json(p: PageRow) -> JsonView {
    JsonView::Object(
        with_tags(
            map![
                "id"@ => JsonView::Str(p.document_id@),
                "title"@ => JsonView::Str(p.title@),
                "type"@ => JsonView::Str(short_type(p.source_type@)),
                "body"@ => JsonView::Str(p.body@),
                "url"@ => JsonView::Str(p.url@),
                "updated_at"@ => JsonView::Str(iso_text(p.updated_at)),
            ],
            p,
        ),
    )
}

/// A page in full, or the refusal where it does not exist.
pub open spec fn page_answer(row: Option<PageRow>) -> Result<JsonView, ApiErrorView> {
    match row {
        Some(p) => Ok(page_json(p)),
        None => Err(no_such_page()),
    }
}

/// A page in full, or the refusal where it does not exist.
pub fn wiki_page(row: Option<&PageRow>) -> (r: Result<Json, ApiError>)
    ensures
        outcome(r) == match row {
            Some(p) => page_answer(Some(*p)),
            None => page_answer(None),
        },
{
    match row {
        Some(p) => {
            let mut fields: Vec<(String, Json)> = Vec::new();
            put_text(&mut fields, "id", p.document_id.as_str());
            put_text(&mut fields, "title", p.title.as_str());
            put_text(&mut fields, "type", strip_wiki_prefix(p.source_type.as_str()).as_str());
            put_text(&mut fields, "body", p.body.as_str());
            put_text(&mut fields, "url", p.url.as_str());
            put_text(&mut fields, "updated_at", iso(p.updated_at).as_str());
            add_tags(&mut fields, p);
            Ok(Json::Object(fields))
        },
        None => Err(page_not_found()),
    }
}

/// What a path below the pages asks for.
#[derive(Debug, PartialEq, Eq)]
pub enum PageRequest {
    /// The page with this id.
    Page(String),
    /// The revisions of the page with this id.
    Revisions(String),
}

/// What a path below the pages asks for: the revisions of a page where it ends in `/revisions`.
pub open spec fn asks_for(path: Seq<char>, request: PageRequest) -> bool {
    let ending = "/revisions"@;
    if ending.is_suffix_of(path) {
        request matches PageRequest::Revisions(id) && id@ == path.take(path.len() - ending.len())
    } else {
        request matches PageRequest::Page(id) && id@ == path
    }
}

/// What a path below the pages asks for.
pub fn wiki_page_or_revisions(path: &str) -> (r: PageRequest)
    ensures
        asks_for(path@, r),
{
    match strip_suffix(path, "/revisions") {
        Some(id) => PageRequest::Revisions(id),
        None => PageRequest::Page(path.to_owned()),
    }
}

/// The revisions of any page can be asked for, whatever its id.
pub proof fn law_revisions_reachable(id: Seq<char>, request: PageRequest)
    requires
        asks_for(id + "/revisions"@, request),
    ensures
        request matches PageRequest::Revisions(asked) && asked@ == id,
{
    let path = id + "/revisions"@;
    assert(path.subrange(path.len() - "/revisions"@.len(), path.len() as int) =~= "/revisions"@);
    assert(path.take(path.len() - "/revisions"@.len()) =~= id);
}

/// A revision of a page as the table of revisions holds it.
#[derive(Debug, PartialEq, Eq)]
pub struct RevisionRow {
    pub revised_at: Option<Timestamp>,
    pub content_hash: String,
    pub len: i32,
}

/// A revision.
pub open spec fn revision_json(r: RevisionRow) -> JsonView {
    JsonView::Object(
        map![
            "revised_at"@ => JsonView::Str(iso_text(r.revised_at)),
            "content_hash"@ => JsonView::Str(r.content_hash@),
            "length"@ => JsonView::Int(r.len as int),
        ],
    )
}

/// The rows of a table that may be missing.
pub open spec fn rows_or_none<T>(rows: Option<&Vec<T>>) -> Seq<T> {
    match rows {
        Some(rows) => rows@,
        None => Seq::empty(),
    }
}

/// The revisions of a page.
pub open spec fn revisions_json(document_id: Seq<char>, rows: Seq<RevisionRow>) -> JsonView {
    JsonView::Object(
        map![
            "id"@ => JsonView::Str(document_id),
            "revisions"@ => JsonView::Array(rows.map_values(|r: RevisionRow| revision_json(r))),
        ],
    )
}

/// The revisions of a page. `rows` is absent where the table could not be read, which counts as
/// no revisions.
pub fn wiki_revisions(document_id: &str, rows: Option<&Vec<RevisionRow>>) -> (r: Json)
    ensures
        r@ == revisions_json(document_id@, rows_or_none(rows)),
{
    let mut items: Vec<Json> = Vec::new();
    proof {
        assert(array_view(items@) =~= Seq::<RevisionRow>::empty().map_values(
            |r: RevisionRow| revision_json(r),
        ));
    }
    if let Some(rows) = rows {
        let mut i: usize = 0;
        proof {
            assert(array_view(items@) =~= rows@.take(0).map_values(
                |r: RevisionRow| revision_json(r),
            ));
        }
        while i < rows.len()
            invariant
                i <= rows@.len(),
                array_view(items@) == rows@.take(i as int).map_values(
                    |r: RevisionRow| revision_json(r),
                ),
            decreases rows@.len() - i,
        {
            let row = &rows[i];
            let mut fields: Vec<(String, Json)> = Vec::new();
            put_text(&mut fields, "revised_at", iso(row.revised_at).as_str());
            put_text(&mut fields, "content_hash", row.content_hash.as_str());
            put(&mut fields, "length", Json::Int(row.len as i128));
            append(&mut items, Json::Object(fields));
            proof {
                assert(rows@.take(i + 1).map_values(|r: RevisionRow| revision_json(r))
                    =~= rows@.take(i as int).map_values(|r: RevisionRow| revision_json(r)).push(
                    revision_json(rows@[i as int]),
                ));
            }
            i += 1;
        }
        proof {
            assert(rows@.take(i as int) =~= rows@);
        }
    }
    let mut fields: Vec<(String, Json)> = Vec::new();
    put_text(&mut fields, "id", document_id);
    put(&mut fields, "revisions", Json::Array(items));
    Json::Object(fields)
}

/// The fields that only some pages have stand on just those pages: the kind of a goal on a goal
/// that has one, a term and a definition on an entry of the glossary, and the rest on the page of
/// a contributor.
pub proof fn law_tags_stand_where_tagged(fields: Map<Seq<char>, JsonView>, p: PageRow)
    ensures
        ({
            let before = fields.dom();
            let after = with_tags(fields, p).dom();
            let goal = p.source_type@ == "wiki_goal"@ && p.goal_kind@.len() > 0;
            let entry = p.glossary@ == "true"@;
            let person = p.person@ == "true"@;
            &&& after.contains("goal_kind"@) == (before.contains("goal_kind"@) || goal)
            &&& after.contains("glossary"@) == (before.contains("glossary"@) || entry)
            &&& after.contains("term"@) == (before.contains("term"@) || entry)
            &&& after.contains("definition"@) == (before.contains("definition"@) || entry)
            &&& after.contains("person"@) == (before.contains("person"@) || person)
            &&& after.contains("display_name"@) == (before.contains("display_name"@) || person)
            &&& after.contains("github_login"@) == (before.contains("github_login"@) || person)
            &&& after.contains("roles"@) == (before.contains("roles"@) || person)
            &&& after.contains("bio"@) == (before.contains("bio"@) || person)
            &&& after.contains("last_active"@) == (before.contains("last_active"@) || person)
            &&& after.contains("active"@) == (before.contains("active"@) || person)
        }),
{
    reveal_strlit("goal_kind");
    reveal_strlit("glossary");
    reveal_strlit("term");
    reveal_strlit("definition");
    reveal_strlit("person");
    reveal_strlit("display_name");
    reveal_strlit("github_login");
    reveal_strlit("roles");
    reveal_strlit("bio");
    reveal_strlit("last_active");
    reveal_strlit("active");
    assert("goal_kind"@.len() == 9);
    assert("glossary"@.len() == 8);
    assert("term"@.len() == 4);
    assert("definition"@.len() == 10);
    assert("person"@.len() == 6);
    assert("display_name"@.len() == 12);
    assert("github_login"@.len() == 12);
    assert("roles"@.len() == 5);
    assert("bio"@.len() == 3);
    assert("last_active"@.len() == 11);
    assert("active"@.len() == 6);
    assert("person"@[0] == 'p');
    assert("active"@[0] == 'a');
    assert("display_name"@[0] == 'd');
    assert("github_login"@[0] == 'g');
}

/// A type without the prefix stays as it is, and one that has the prefix loses it where it stands
/// first.
pub proof fn law_type_loses_first_prefix(a: Seq<char>, b: Seq<char>)
    ensures
        (forall|i: int| 0 <= i <= a.len() ==> !"wiki_"@.is_prefix_of(#[trigger] a.skip(i)))
            ==> short_type(a) == a,
        (forall|i: int|
            0 <= i < a.len() ==> !"wiki_"@.is_prefix_of(#[trigger] (a + "wiki_"@ + b).skip(i)))
            ==> short_type(a + "wiki_"@ + b) == a + b,
{
    let prefix = "wiki_"@;
    let s = a + prefix + b;
    reveal_strlit("wiki_");
    law_first_match(a, prefix);
    law_first_match(s, prefix);
    if forall|i: int| 0 <= i < a.len() ==> !prefix.is_prefix_of(#[trigger] s.skip(i)) {
        assert(s.skip(a.len() as int).subrange(0, prefix.len() as int) =~= prefix);
        assert(prefix.is_prefix_of(s.skip(a.len() as int)));
        let i = first_match(s, prefix)->0;
        assert(i == a.len());
        assert(s.take(i) + s.skip(i + prefix.len()) =~= a + b);
    }
    if forall|i: int| 0 <= i <= a.len() ==> !prefix.is_prefix_of(#[trigger] a.skip(i)) {
        if let Some(i) = first_match(a, prefix) {
            assert(prefix.is_prefix_of(a.skip(i)));
        }
    }
}

/// The names of the fields that only some pages have.
pub open spec fn tag_names() -> Seq<Seq<char>> {
    seq![
        "goal_kind"@,
        "glossary"@,
        "term"@,
        "definition"@,
        "person"@,
        "display_name"@,
        "github_login"@,
        "roles"@,
        "bio"@,
        "last_active"@,
        "active"@,
    ]
}

/// The fields that only some pages have hold what the page has: the kind of a goal, the term and the
/// definition of an entry of the glossary, and the name, the login, the roles, the words, the last
/// day and the state of a contributor. A page that is none of these gets none of them, and no other
/// field changes.
pub proof fn law_tags_hold_what_page_has(
    fields: Map<Seq<char>, JsonView>,
    p: PageRow,
    name: Seq<char>,
)
    ensures
        ({
            let was = JsonView::Object(fields);
            let now = JsonView::Object(with_tags(fields, p));
            let goal = p.source_type@ == "wiki_goal"@ && p.goal_kind@.len() > 0;
            let entry = p.glossary@ == "true"@;
            let person = p.person@ == "true"@;
            &&& goal ==> field(now, "goal_kind"@) == Some(JsonView::Str(p.goal_kind@))
            &&& entry ==> {
                &&& field(now, "glossary"@) == Some(JsonView::Bool(true))
                &&& field(now, "term"@) == Some(JsonView::Str(p.term@))
                &&& field(now, "definition"@) == Some(JsonView::Str(p.definition@))
            }
            &&& person ==> {
                &&& field(now, "person"@) == Some(JsonView::Bool(true))
                &&& field(now, "display_name"@) == Some(JsonView::Str(p.display_name@))
                &&& field(now, "github_login"@) == Some(JsonView::Str(p.github_login@))
                &&& field(now, "roles"@) == Some(JsonView::Str(p.roles@))
                &&& field(now, "bio"@) == Some(JsonView::Str(p.bio@))
                &&& field(now, "last_active"@) == Some(JsonView::Str(p.last_active@))
                &&& field(now, "active"@) == Some(JsonView::Bool(p.active@ == "true"@))
            }
            &&& !goal && name == "goal_kind"@ ==> field(now, name) == field(was, name)
            &&& !entry && (name == "glossary"@ || name == "term"@ || name == "definition"@)
                ==> field(now, name) == field(was, name)
            &&& !person && (name == "person"@ || name == "display_name"@ || name
                == "github_login"@ || name == "roles"@ || name == "bio"@ || name == "last_active"@
                || name == "active"@) ==> field(now, name) == field(was, name)
            &&& !tag_names().contains(name) ==> field(now, name) == field(was, name)
        }),
{
    reveal_strlit("goal_kind");
    reveal_strlit("glossary");
    reveal_strlit("term");
    reveal_strlit("definition");
    reveal_strlit("person");
    reveal_strlit("display_name");
    reveal_strlit("github_login");
    reveal_strlit("roles");
    reveal_strlit("bio");
    reveal_strlit("last_active");
    reveal_strlit("active");
    assert("goal_kind"@.len() == 9);
    assert("glossary"@.len() == 8);
    assert("term"@.len() == 4);
    assert("definition"@.len() == 10);
    assert("person"@.len() == 6);
    assert("display_name"@.len() == 12);
    assert("github_login"@.len() == 12);
    assert("roles"@.len() == 5);
    assert("bio"@.len() == 3);
    assert("last_active"@.len() == 11);
    assert("active"@.len() == 6);
    assert("person"@[0] == 'p');
    assert("active"@[0] == 'a');
    assert("display_name"@[0] == 'd');
    assert("github_login"@[0] == 'g');
    let tags = tag_names();
    assert(tags[0] == "goal_kind"@);
    assert(tags[1] == "glossary"@);
    assert(tags[2] == "term"@);
    assert(tags[3] == "definition"@);
    assert(tags[4] == "person"@);
    assert(tags[5] == "display_name"@);
    assert(tags[6] == "github_login"@);
    assert(tags[7] == "roles"@);
    assert(tags[8] == "bio"@);
    assert(tags[9] == "last_active"@);
    assert(tags[10] == "active"@);
}

proof fn lemma_no_tag(name: Seq<char>)
    requires
        name == "id"@ || name == "title"@ || name == "type"@ || name == "body"@ || name == "url"@
            || name == "updated_at"@ || name == "degree"@ || name == "backlinks"@,
    ensures
        !tag_names().contains(name),
{
    reveal_strlit("goal_kind");
    reveal_strlit("glossary");
    reveal_strlit("term");
    reveal_strlit("definition");
    reveal_strlit("person");
    reveal_strlit("display_name");
    reveal_strlit("github_login");
    reveal_strlit("roles");
    reveal_strlit("bio");
    reveal_strlit("last_active");
    reveal_strlit("active");
    reveal_strlit("id");
    reveal_strlit("title");
    reveal_strlit("type");
    reveal_strlit("body");
    reveal_strlit("url");
    reveal_strlit("updated_at");
    reveal_strlit("degree");
    reveal_strlit("backlinks");
    assert("goal_kind"@.len() == 9);
    assert("glossary"@.len() == 8);
    assert("term"@.len() == 4);
    assert("definition"@.len() == 10);
    assert("person"@.len() == 6);
    assert("display_name"@.len() == 12);
    assert("github_login"@.len() == 12);
    assert("roles"@.len() == 5);
    assert("bio"@.len() == 3);
    assert("last_active"@.len() == 11);
    assert("active"@.len() == 6);
    assert("id"@.len() == 2);
    assert("title"@.len() == 5);
    assert("type"@.len() == 4);
    assert("body"@.len() == 4);
    assert("url"@.len() == 3);
    assert("updated_at"@.len() == 10);
    assert("degree"@.len() == 6);
    assert("backlinks"@.len() == 9);
    assert("goal_kind"@[0] == 'g');
    assert("backlinks"@[0] == 'b');
    assert("term"@[1] == 'e');
    assert("type"@[1] == 'y');
    assert("term"@[0] == 't');
    assert("body"@[0] == 'b');
    assert("definition"@[0] == 'd');
    assert("updated_at"@[0] == 'u');
    assert("person"@[0] == 'p');
    assert("active"@[0] == 'a');
    assert("degree"@[0] == 'd');
    assert("display_name"@[0] == 'd');
    assert("github_login"@[0] == 'g');
    assert("roles"@[0] == 'r');
    assert("title"@[0] == 't');
    assert("bio"@[0] == 'b');
    assert("url"@[0] == 'u');
    assert("type"@[0] == 't');
    let tags = tag_names();
    assert(tags[0] == "goal_kind"@);
    assert(tags[1] == "glossary"@);
    assert(tags[2] == "term"@);
    assert(tags[3] == "definition"@);
    assert(tags[4] == "person"@);
    assert(tags[5] == "display_name"@);
    assert(tags[6] == "github_login"@);
    assert(tags[7] == "roles"@);
    assert(tags[8] == "bio"@);
    assert(tags[9] == "last_active"@);
    assert(tags[10] == "active"@);
}

/// The names of the fields that every page or node has are not among those that only some have.
pub proof fn law_common_names_are_no_tags()
    ensures
        !tag_names().contains("id"@),
        !tag_names().contains("title"@),
        !tag_names().contains("type"@),
        !tag_names().contains("body"@),
        !tag_names().contains("url"@),
        !tag_names().contains("updated_at"@),
        !tag_names().contains("degree"@),
        !tag_names().contains("backlinks"@),
{
    lemma_no_tag("id"@);
    lemma_no_tag("title"@);
    lemma_no_tag("type"@);
    lemma_no_tag("body"@);
    lemma_no_tag("url"@);
    lemma_no_tag("updated_at"@);
    lemma_no_tag("degree"@);
    lemma_no_tag("backlinks"@);
}

/// A page that exists is answered with what is stored of it, its body in full, and with the fields
/// of a goal, an entry or a contributor where it is one and only there. One that does not exist is
/// refused.
pub proof fn law_page_is_answered_in_full(p: PageRow)
    ensures
        page_answer(Some(p)) matches Ok(page) && {
            let goal = p.source_type@ == "wiki_goal"@ && p.goal_kind@.len() > 0;
            let entry = p.glossary@ == "true"@;
            let person = p.person@ == "true"@;
            &&& field(page, "id"@) == Some(JsonView::Str(p.document_id@))
            &&& field(page, "title"@) == Some(JsonView::Str(p.title@))
            &&& field(page, "type"@) == Some(JsonView::Str(short_type(p.source_type@)))
            &&& field(page, "body"@) == Some(JsonView::Str(p.body@))
            &&& field(page, "url"@) == Some(JsonView::Str(p.url@))
            &&& field(page, "updated_at"@) == Some(JsonView::Str(iso_text(p.updated_at)))
            &&& goal ==> field(page, "goal_kind"@) == Some(JsonView::Str(p.goal_kind@))
            &&& !goal ==> field(page, "goal_kind"@) is None
            &&& entry ==> field(page, "term"@) == Some(JsonView::Str(p.term@)) && field(
                page,
                "definition"@,
            ) == Some(JsonView::Str(p.definition@))
            &&& !entry ==> field(page, "glossary"@) is None && field(page, "term"@) is None
                && field(page, "definition"@) is None
            &&& person ==> field(page, "display_name"@) == Some(JsonView::Str(p.display_name@))
                && field(page, "github_login"@) == Some(JsonView::Str(p.github_login@))
            &&& !person ==> field(page, "person"@) is None && field(page, "display_name"@) is None
                && field(page, "active"@) is None
        },
        page_answer(None) == Err::<JsonView, ApiErrorView>(
            ApiErrorView::NotFound("wiki page not found"@),
        ),
{
    let base = map![
        "id"@ => JsonView::Str(p.document_id@),
        "title"@ => JsonView::Str(p.title@),
        "type"@ => JsonView::Str(short_type(p.source_type@)),
        "body"@ => JsonView::Str(p.body@),
        "url"@ => JsonView::Str(p.url@),
        "updated_at"@ => JsonView::Str(iso_text(p.updated_at)),
    ];
    reveal_strlit("goal_kind");
    reveal_strlit("glossary");
    reveal_strlit("term");
    reveal_strlit("definition");
    reveal_strlit("person");
    reveal_strlit("display_name");
    reveal_strlit("github_login");
    reveal_strlit("roles");
    reveal_strlit("bio");
    reveal_strlit("last_active");
    reveal_strlit("active");
    reveal_strlit("id");
    reveal_strlit("title");
    reveal_strlit("type");
    reveal_strlit("body");
    reveal_strlit("url");
    reveal_strlit("updated_at");
    assert("goal_kind"@.len() == 9);
    assert("glossary"@.len() == 8);
    assert("term"@.len() == 4);
    assert("definition"@.len() == 10);
    assert("person"@.len() == 6);
    assert("display_name"@.len() == 12);
    assert("github_login"@.len() == 12);
    assert("roles"@.len() == 5);
    assert("bio"@.len() == 3);
    assert("last_active"@.len() == 11);
    assert("active"@.len() == 6);
    assert("id"@.len() == 2);
    assert("title"@.len() == 5);
    assert("type"@.len() == 4);
    assert("body"@.len() == 4);
    assert("url"@.len() == 3);
    assert("updated_at"@.len() == 10);
    assert("term"@[1] == 'e');
    assert("type"@[1] == 'y');
    assert("term"@[0] == 't');
    assert("body"@[0] == 'b');
    assert("definition"@[0] == 'd');
    assert("updated_at"@[0] == 'u');
    assert("person"@[0] == 'p');
    assert("active"@[0] == 'a');
    assert("display_name"@[0] == 'd');
    assert("github_login"@[0] == 'g');
    assert("roles"@[0] == 'r');
    assert("title"@[0] == 't');
    assert("bio"@[0] == 'b');
    assert("url"@[0] == 'u');
    assert("type"@[0] == 't');
    law_common_names_are_no_tags();
    law_tags_hold_what_page_has(base, p, "id"@);
    law_tags_hold_what_page_has(base, p, "title"@);
    law_tags_hold_what_page_has(base, p, "type"@);
    law_tags_hold_what_page_has(base, p, "body"@);
    law_tags_hold_what_page_has(base, p, "url"@);
    law_tags_hold_what_page_has(base, p, "updated_at"@);
    law_tags_hold_what_page_has(base, p, "goal_kind"@);
    law_tags_hold_what_page_has(base, p, "glossary"@);
    law_tags_hold_what_page_has(base, p, "term"@);
    law_tags_hold_what_page_has(base, p, "definition"@);
    law_tags_hold_what_page_has(base, p, "person"@);
    law_tags_hold_what_page_has(base, p, "display_name"@);
    law_tags_hold_what_page_has(base, p, "active"@);
}

/// A path that does not end in `/revisions` asks for the page whose id it is.
pub proof fn law_plain_path_asks_for_page(path: Seq<char>, request: PageRequest)
    requires
        asks_for(path, request),
        !"/revisions"@.is_suffix_of(path),
    ensures
        request matches PageRequest::Page(id) && id@ == path,
{
}

/// The revisions of a page are listed under its id, one for each row and in the order of the rows,
/// each with its time, its hash and its length.
pub proof fn law_revisions_are_listed(document_id: Seq<char>, rows: Seq<RevisionRow>, i: int)
    ensures
        ({
            let r = revisions_json(document_id, rows);
            let items = items_of(field(r, "revisions"@));
            &&& field(r, "id"@) == Some(JsonView::Str(document_id))
            &&& items.len() == rows.len()
            &&& 0 <= i < rows.len() ==> {
                &&& field(items[i], "revised_at"@) == Some(
                    JsonView::Str(iso_text(rows[i].revised_at)),
                )
                &&& field(items[i], "content_hash"@) == Some(JsonView::Str(rows[i].content_hash@))
                &&& field(items[i], "length"@) == Some(JsonView::Int(rows[i].len as int))
            }
        }),
{
    reveal_strlit("id");
    reveal_strlit("revisions");
    reveal_strlit("revised_at");
    reveal_strlit("content_hash");
    reveal_strlit("length");
    assert("id"@.len() == 2);
    assert("revisions"@.len() == 9);
    assert("revised_at"@.len() == 10);
    assert("content_hash"@.len() == 12);
    assert("length"@.len() == 6);
}

/// The rows of a table are those that were read, and none where it could not be read.
pub proof fn law_missing_table_has_no_rows<T>(rows: &Vec<T>)
    ensures
        rows_or_none(Some(rows)) == rows@,
        rows_or_none::<T>(None).len() == 0,
{
}

} // verus!
