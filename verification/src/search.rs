//! Full-text search: what is asked for, and how a hit is shown.
use crate::clock::{iso, iso_text, Timestamp};
use crate::json::{append, array_view, field, items_of, put, put_text, Json, JsonView};
use crate::page::{short_type, strip_wiki_prefix};
use crate::text::{
    blank, chars_of, law_trimmed, law_trimmed_ends, lowercase, split_words, text_of, texts,
    to_lowercase, trim, trimmed, white_space, words,
};
use vstd::prelude::*;
use vstd::string::*;

verus! {

/// How many characters are shown before a hit.
pub const BEFORE_HIT: usize = 60;

/// How many characters are shown from the start of a hit on.
pub const FROM_HIT: usize = 160;

/// How many characters are shown of a body without a hit.
pub const WITHOUT_HIT: usize = 200;

/// Whether a text starts with one of `terms`.
pub open spec fn starts_any(s: Seq<char>, terms: Seq<Seq<char>>) -> bool {
    exists|k: int| 0 <= k < terms.len() && (#[trigger] terms[k]).is_prefix_of(s)
}

/// The least position at or behind `from` at which one of `terms` occurs in `s`.
pub open spec fn hit_from(s: Seq<char>, terms: Seq<Seq<char>>, from: int) -> Option<int>
    decreases s.len() - from,
{
    if from >= s.len() {
        None
    } else if starts_any(s.skip(from), terms) {
        Some(from)
    } else {
        hit_from(s, terms, from + 1)
    }
}

/// How many characters the lower case of each character of `s` takes, in all.
pub open spec fn lower_length(s: Seq<char>) -> nat
    decreases s.len(),
{
    if s.len() == 0 {
        0
    } else {
        lower_length(s.drop_last()) + lowercase(seq![s.last()]).len()
    }
}

/// The first position of `s` from `from` on whose character, in lower case, reaches behind position
/// `at` of the lower case of `s`; the length of `s` where there is none.
pub open spec fn grown_place(s: Seq<char>, at: int, from: int) -> int
    decreases s.len() - from,
{
    if from >= s.len() || at < lower_length(s.take(from + 1)) {
        from
    } else {
        grown_place(s, at, from + 1)
    }
}

/// The position of `s` whose character stands at position `at` of the lower case of `s`. The two
/// are the same where the lower case of `s` is as long as `s`; else a character in lower case may
/// take more than one position.
pub open spec fn place_of(s: Seq<char>, at: int) -> int {
    if lowercase(s).len() == s.len() {
        at
    } else {
        grown_place(s, at, 0)
    }
}

/// The position in `body` of the first occurrence of one of the lower-case `terms` in the lower
/// case of `body`.
pub open spec fn first_hit(body: Seq<char>, terms: Seq<Seq<char>>) -> Option<int> {
    match hit_from(lowercase(body), terms, 0) {
        Some(at) => if place_of(body, at) < body.len() {
            Some(place_of(body, at))
        } else {
            None
        },
        None => None,
    }
}

/// The part of `s` from `from` up to `to`, with an ellipsis where something is left out.
pub open spec fn cut(s: Seq<char>, from: int, to: int) -> Seq<char> {
    let start = if from > 0 {
        seq!['\u{2026}']
    } else {
        Seq::empty()
    };
    let end = if to < s.len() {
        seq!['\u{2026}']
    } else {
        Seq::empty()
    };
    start + s.subrange(from, to) + end
}

/// The smaller of two numbers.
pub open spec fn least(a: int, b: int) -> int {
    if a <= b {
        a
    } else {
        b
    }
}

/// Where the part of a text that is shown starts.
pub open spec fn shown_from(hit: Option<int>) -> int {
    match hit {
        Some(at) => if at <= BEFORE_HIT {
            0
        } else {
            at - BEFORE_HIT
        },
        None => 0,
    }
}

/// Where the part of a text of `len` characters that is shown ends.
pub open spec fn shown_to(hit: Option<int>, len: int) -> int {
    match hit {
        Some(at) => least(at + FROM_HIT, len),
        None => least(WITHOUT_HIT as int, len),
    }
}

/// The part of `body` around a hit, or its start where there is none.
pub open spec fn snippet_of(body: Seq<char>, hit: Option<int>) -> Seq<char> {
    cut(body, shown_from(hit), shown_to(hit, body.len() as int))
}

/// The words of a query in lower case.
pub open spec fn search_terms(query: Seq<char>) -> Seq<Seq<char>> {
    words(query).map_values(|w: Seq<char>| lowercase(w))
}

/// Whether `term` occurs at position `at` of a text.
fn occurs_at(chars: &Vec<char>, at: usize, term: &str) -> (r: bool)
    requires
        at <= chars@.len(),
    ensures
        r == term@.is_prefix_of(chars@.skip(at as int)),
{
    let wanted = chars_of(term);
    let len: usize = chars.len();
    let ghost rest = chars@.skip(at as int);
    if len - at < wanted.len() {
        return false;
    }
    let mut i: usize = 0;
    while i < wanted.len()
        invariant
            i <= wanted@.len() <= rest.len(),
            at + rest.len() == chars@.len() == len,
            wanted@ == term@,
            rest == chars@.skip(at as int),
            forall|k: int| 0 <= k < i ==> wanted@[k] == rest[k],
        decreases wanted@.len() - i,
    {
        if wanted[i] != chars[at + i] {
            proof {
                assert(rest.subrange(0, term@.len() as int)[i as int] == rest[i as int]);
            }
            return false;
        }
        i += 1;
    }
    proof {
        assert(term@ =~= rest.subrange(0, term@.len() as int));
    }
    true
}

/// Whether one of `terms` occurs at position `at` of a text.
fn any_occurs_at(chars: &Vec<char>, at: usize, terms: &Vec<String>) -> (r: bool)
    requires
        at <= chars@.len(),
    ensures
        r == starts_any(chars@.skip(at as int), texts(terms@)),
{
    let ghost rest = chars@.skip(at as int);
    let mut i: usize = 0;
    while i < terms.len()
        invariant
            at <= chars@.len(),
            rest == chars@.skip(at as int),
            i <= terms@.len(),
            forall|k: int| 0 <= k < i ==> !(#[trigger] texts(terms@)[k]).is_prefix_of(rest),
        decreases terms@.len() - i,
    {
        if occurs_at(chars, at, terms[i].as_str()) {
            proof {
                assert(texts(terms@)[i as int].is_prefix_of(rest));
            }
            return true;
        }
        proof {
            assert(texts(terms@)[i as int] == terms@[i as int]@);
        }
        i += 1;
    }
    false
}

/// The least position at which one of `terms` occurs in `s`.
pub fn find_any(s: &str, terms: &Vec<String>) -> (r: Option<usize>)
    ensures
        match r {
            Some(at) => at < s@.len() && hit_from(s@, texts(terms@), 0) == Some(at as int),
            None => hit_from(s@, texts(terms@), 0) is None,
        },
{
    let chars = chars_of(s);
    let ghost all = texts(terms@);
    let mut i: usize = 0;
    while i < chars.len()
        invariant
            i <= chars@.len(),
            chars@ == s@,
            all == texts(terms@),
            hit_from(s@, all, 0) == hit_from(s@, all, i as int),
        decreases chars@.len() - i,
    {
        if any_occurs_at(&chars, i, terms) {
            return Some(i);
        }
        i += 1;
    }
    None
}

/// The position of `s` whose character stands at position `at` of the lower case of `s`, where its
/// characters take more than one position there.
fn find_grown(s: &str, at: usize) -> (r: usize)
    ensures
        r == grown_place(s@, at as int, 0),
        r <= s@.len(),
{
    let chars = chars_of(s);
    let mut left: usize = at;
    let mut i: usize = 0;
    proof {
        assert(chars@.take(0) =~= Seq::empty());
    }
    while i < chars.len()
        invariant
            i <= chars@.len(),
            chars@ == s@,
            left + lower_length(s@.take(i as int)) == at,
            grown_place(s@, at as int, 0) == grown_place(s@, at as int, i as int),
        decreases chars@.len() - i,
    {
        let letter = text_of(&chars, i, i + 1);
        let lowered = to_lowercase(letter.as_str());
        let len: usize = chars_of(lowered.as_str()).len();
        proof {
            assert(letter@ =~= seq![s@[i as int]]);
            assert(s@.take(i + 1).drop_last() =~= s@.take(i as int));
        }
        if left < len {
            return i;
        }
        left = left - len;
        i += 1;
    }
    i
}

/// The position in `body` of the first occurrence of one of the lower-case `terms` in the lower
/// case of `body`.
fn find_first(body: &str, terms: &Vec<String>) -> (r: Option<usize>)
    ensures
        match r {
            Some(at) => at < body@.len() && first_hit(body@, texts(terms@)) == Some(at as int),
            None => first_hit(body@, texts(terms@)) is None,
        },
{
    let lowered = to_lowercase(body);
    let hit: usize = match find_any(lowered.as_str(), terms) {
        Some(at) => at,
        None => {
            return None;
        },
    };
    let len: usize = chars_of(body).len();
    let place: usize = if chars_of(lowered.as_str()).len() == len {
        hit
    } else {
        find_grown(body, hit)
    };
    if place < len {
        Some(place)
    } else {
        None
    }
}

/// The part of `body` around the hit at a position, or its start where there is none.
pub fn snippet(body: &str, hit: Option<usize>) -> (r: String)
    requires
        hit matches Some(at) ==> at < body@.len(),
    ensures
        r@ == snippet_of(
            body@,
            match hit {
                Some(at) => Some(at as int),
                None => None,
            },
        ),
{
    let chars = chars_of(body);
    let len = chars.len();
    let (from, to): (usize, usize) = match hit {
        Some(at) => (
            if at <= BEFORE_HIT {
                0
            } else {
                at - BEFORE_HIT
            },
            if len - at <= FROM_HIT {
                len
            } else {
                at + FROM_HIT
            },
        ),
        None => (
            0,
            if len <= WITHOUT_HIT {
                len
            } else {
                WITHOUT_HIT
            },
        ),
    };
    let mut out = String::new();
    if from > 0 {
        out.push('\u{2026}');
    }
    out.append(text_of(&chars, from, to).as_str());
    if to < len {
        out.push('\u{2026}');
    }
    proof {
        assert(out@ =~= cut(chars@, from as int, to as int));
    }
    out
}

/// The words of a query in lower case.
fn lower_terms(query: &str) -> (r: Vec<String>)
    ensures
        texts(r@) == search_terms(query@),
{
    let found = split_words(query);
    let ghost all = texts(found@);
    let mut out: Vec<String> = Vec::new();
    let mut i: usize = 0;
    proof {
        assert(texts(out@) =~= all.take(0).map_values(|w: Seq<char>| lowercase(w)));
    }
    while i < found.len()
        invariant
            i <= found@.len(),
            all == texts(found@),
            texts(out@) == all.take(i as int).map_values(|w: Seq<char>| lowercase(w)),
        decreases found@.len() - i,
    {
        let ghost before = out@;
        out.push(to_lowercase(found[i].as_str()));
        proof {
            assert(texts(out@) =~= texts(before).push(lowercase(all[i as int])));
            assert(texts(out@) =~= all.take(i + 1).map_values(|w: Seq<char>| lowercase(w)));
        }
        i += 1;
    }
    proof {
        assert(all.take(i as int) =~= all);
    }
    out
}

/// A snippet of about two hundred characters of `body` around the first occurrence of any word of
/// `query`, in any case; the first two hundred characters where no word occurs.
pub fn truncate_body(body: &str, query: &str) -> (r: String)
    ensures
        r@ == snippet_of(body@, first_hit(body@, search_terms(query@))),
{
    snippet(body, find_first(body, &lower_terms(query)))
}

proof fn lemma_hit_from(s: Seq<char>, terms: Seq<Seq<char>>, from: int)
    requires
        0 <= from <= s.len(),
    ensures
        match hit_from(s, terms, from) {
            Some(at) => from <= at < s.len() && starts_any(s.skip(at), terms) && forall|i: int|
                from <= i < at ==> !starts_any(#[trigger] s.skip(i), terms),
            None => forall|i: int|
                from <= i < s.len() ==> !starts_any(#[trigger] s.skip(i), terms),
        },
    decreases s.len() - from,
{
    if from < s.len() && !starts_any(s.skip(from), terms) {
        lemma_hit_from(s, terms, from + 1);
    }
}

proof fn lemma_grown_place(s: Seq<char>, at: int, from: int)
    requires
        0 <= from <= s.len(),
        lower_length(s.take(from)) <= at,
    ensures
        from <= grown_place(s, at, from) <= s.len(),
        lower_length(s.take(grown_place(s, at, from))) <= at,
        grown_place(s, at, from) < s.len() ==> at < lower_length(
            s.take(grown_place(s, at, from) + 1),
        ),
    decreases s.len() - from,
{
    if from < s.len() && at >= lower_length(s.take(from + 1)) {
        lemma_grown_place(s, at, from + 1);
    }
}

proof fn lemma_first_hit(body: Seq<char>, terms: Seq<Seq<char>>)
    ensures
        first_hit(body, terms) matches Some(at) ==> 0 <= at < body.len(),
{
    lemma_hit_from(lowercase(body), terms, 0);
    assert(body.take(0) =~= Seq::empty());
    if let Some(at) = hit_from(lowercase(body), terms, 0) {
        lemma_grown_place(body, at, 0);
    }
}

/// A snippet is never longer than what it may show and two ellipses.
pub proof fn law_snippet_length(body: Seq<char>, terms: Seq<Seq<char>>)
    ensures
        snippet_of(body, first_hit(body, terms)).len() <= BEFORE_HIT + FROM_HIT + 2,
{
    lemma_first_hit(body, terms);
}

/// The hit is where the first occurrence of a term in the lower case of the body stands, and there
/// is none where no term occurs there. Where the lower case of the body is as long as the body, the
/// hit is the first position at which a term occurs in it.
pub proof fn law_first_hit_is_first(body: Seq<char>, terms: Seq<Seq<char>>)
    ensures
        match hit_from(lowercase(body), terms, 0) {
            Some(at) => {
                let low = lowercase(body);
                &&& 0 <= at < low.len()
                &&& starts_any(low.skip(at), terms)
                &&& forall|i: int| 0 <= i < at ==> !starts_any(#[trigger] low.skip(i), terms)
                &&& low.len() == body.len() ==> first_hit(body, terms) == Some(at)
                &&& at < lower_length(body) ==> first_hit(body, terms) == Some(place_of(body, at))
            },
            None => first_hit(body, terms) is None && forall|i: int|
                0 <= i < lowercase(body).len() ==> !starts_any(
                    #[trigger] lowercase(body).skip(i),
                    terms,
                ),
        },
{
    lemma_hit_from(lowercase(body), terms, 0);
    if let Some(at) = hit_from(lowercase(body), terms, 0) {
        if lowercase(body).len() != body.len() && at < lower_length(body) {
            law_place_holds_position(body, at);
        }
    }
}

/// Where the lower case of a text is not as long as the text, the character whose place a position
/// of the lower case has is the one whose own lower case stands there.
pub proof fn law_place_holds_position(s: Seq<char>, at: int)
    requires
        0 <= at < lower_length(s),
        lowercase(s).len() != s.len(),
    ensures
        0 <= place_of(s, at) < s.len(),
        lower_length(s.take(place_of(s, at))) <= at < lower_length(s.take(place_of(s, at) + 1)),
{
    assert(s.take(0) =~= Seq::empty());
    assert(s.take(s.len() as int) =~= s);
    lemma_grown_place(s, at, 0);
}

/// Where a term occurs, the snippet shows the body from at most sixty characters before the first
/// occurrence on, and the first hundred and sixty characters from there, as far as there are so
/// many; where none does, it shows the first two hundred characters.
pub proof fn law_snippet_shows_hit(body: Seq<char>, terms: Seq<Seq<char>>)
    ensures
        match first_hit(body, terms) {
            Some(at) => {
                let from = shown_from(Some(at));
                let to = shown_to(Some(at), body.len() as int);
                &&& 0 <= from <= at < to <= body.len()
                &&& at - from <= BEFORE_HIT
                &&& to == body.len() || to == at + FROM_HIT
                &&& snippet_of(body, first_hit(body, terms)) == cut(body, from, to)
            },
            None => snippet_of(body, first_hit(body, terms)) == cut(
                body,
                0,
                least(WITHOUT_HIT as int, body.len() as int),
            ),
        },
{
    lemma_first_hit(body, terms);
}

/// What a search asks the index for: nothing where the query is blank, else the query without the
/// white space around it and how many hits are wanted, twenty by default and fifty at most.
pub open spec fn search_plan_of(q: Seq<char>, limit: Option<i64>) -> Option<(Seq<char>, i64)> {
    if trimmed(q).len() == 0 {
        None
    } else {
        let wanted = match limit {
            Some(n) => n,
            None => 20,
        };
        Some(
            (
                trimmed(q),
                if wanted <= 50 {
                    wanted
                } else {
                    50
                },
            ),
        )
    }
}

/// What a search asks the index for.
pub fn search_plan(q: &str, limit: Option<i64>) -> (r: Option<(String, i64)>)
    ensures
        match r {
            Some((query, n)) => search_plan_of(q@, limit) == Some((query@, n)),
            None => search_plan_of(q@, limit) is None,
        },
{
    let query = trim(q);
    if query.as_str().is_empty() {
        return None;
    }
    let wanted: i64 = match limit {
        Some(n) => n,
        None => 20,
    };
    Some(
        (
            query,
            if wanted <= 50 {
                wanted
            } else {
                50
            },
        ),
    )
}

/// A hit as the index gives it.
#[derive(Debug, PartialEq, Eq)]
pub struct SearchRow {
    pub document_id: String,
    pub source_type: String,
    pub title: String,
    pub body: String,
    pub url: String,
    pub updated_at: Option<Timestamp>,
}

/// A hit of a search for `q`.
pub open spec fn hit_json(row: SearchRow, q: Seq<char>) -> JsonView {
    JsonView::Object(
        map![
            "id"@ => JsonView::Str(row.document_id@),
            "title"@ => JsonView::Str(row.title@),
            "type"@ => JsonView::Str(short_type(row.source_type@)),
            "snippet"@ => JsonView::Str(
                snippet_of(row.body@, first_hit(row.body@, search_terms(q))),
            ),
            "url"@ => JsonView::Str(row.url@),
            "updated_at"@ => JsonView::Str(iso_text(row.updated_at)),
        ],
    )
}

/// The hits of a search for `q`.
pub open spec fn search_json(rows: Seq<SearchRow>, q: Seq<char>) -> JsonView {
    JsonView::Object(
        map!["results"@ => JsonView::Array(rows.map_values(|row: SearchRow| hit_json(row, q)))],
    )
}

/// What a search for `q` is answered with, out of the rows that the index gave; nothing where the
/// query is blank.
pub open spec fn search_answer(q: Seq<char>, limit: Option<i64>, rows: Seq<SearchRow>) -> JsonView {
    match search_plan_of(q, limit) {
        Some((asked, _)) => search_json(rows, asked),
        None => search_json(Seq::empty(), Seq::empty()),
    }
}

/// What a search for `q` is answered with.
pub fn answer_search(q: &str, limit: Option<i64>, rows: &Vec<SearchRow>) -> (r: Json)
    ensures
        r@ == search_answer(q@, limit, rows@),
{
    match search_plan(q, limit) {
        Some((asked, _)) => wiki_search(rows, asked.as_str()),
        None => {
            let none: Vec<SearchRow> = Vec::new();
            proof {
                reveal_strlit("");
                assert(""@ =~= Seq::empty());
                assert(none@ =~= Seq::empty());
            }
            wiki_search(&none, "")
        },
    }
}

/// The hits of a search for `q`, in the order in which the index gave them.
pub fn wiki_search(rows: &Vec<SearchRow>, q: &str) -> (r: Json)
    ensures
        r@ == search_json(rows@, q@),
{
    let mut items: Vec<Json> = Vec::new();
    let mut i: usize = 0;
    proof {
        assert(array_view(items@) =~= rows@.take(0).map_values(
            |row: SearchRow| hit_json(row, q@),
        ));
    }
    while i < rows.len()
        invariant
            i <= rows@.len(),
            array_view(items@) == rows@.take(i as int).map_values(
                |row: SearchRow| hit_json(row, q@),
            ),
        decreases rows@.len() - i,
    {
        let row = &rows[i];
        let mut fields: Vec<(String, Json)> = Vec::new();
        put_text(&mut fields, "id", row.document_id.as_str());
        put_text(&mut fields, "title", row.title.as_str());
        put_text(&mut fields, "type", strip_wiki_prefix(row.source_type.as_str()).as_str());
        put_text(&mut fields, "snippet", truncate_body(row.body.as_str(), q).as_str());
        put_text(&mut fields, "url", row.url.as_str());
        put_text(&mut fields, "updated_at", iso(row.updated_at).as_str());
        append(&mut items, Json::Object(fields));
        proof {
            assert(rows@.take(i + 1).map_values(|row: SearchRow| hit_json(row, q@))
                =~= rows@.take(i as int).map_values(|row: SearchRow| hit_json(row, q@)).push(
                hit_json(rows@[i as int], q@),
            ));
        }
        i += 1;
    }
    proof {
        assert(rows@.take(i as int) =~= rows@);
    }
    let mut fields: Vec<(String, Json)> = Vec::new();
    put(&mut fields, "results", Json::Array(items));
    Json::Object(fields)
}

// What a search shows.

/// What is shown of a body around a position: all of it where it is short, else up to sixty
/// characters before the position and a hundred and sixty from it on, with an ellipsis at each end
/// where something is left out.
pub proof fn law_snippet_around_position(body: Seq<char>, at: int)
    requires
        0 <= at < body.len(),
    ensures
        ({
            let dots = seq!['\u{2026}'];
            let shown = snippet_of(body, Some(at));
            let len = body.len() as int;
            &&& at <= 60 && len <= at + 160 ==> shown == body
            &&& at <= 60 && at + 160 < len ==> shown == body.take(at + 160) + dots
            &&& 60 < at && len <= at + 160 ==> shown == dots + body.skip(at - 60)
            &&& 60 < at && at + 160 < len ==> shown == dots + body.subrange(at - 60, at + 160)
                + dots
        }),
{
    let dots = seq!['\u{2026}'];
    let shown = snippet_of(body, Some(at));
    let len = body.len() as int;
    if at <= 60 && len <= at + 160 {
        assert(shown =~= body);
    } else if at <= 60 {
        assert(shown =~= body.take(at + 160) + dots);
    } else if len <= at + 160 {
        assert(shown =~= dots + body.skip(at - 60));
    } else {
        assert(shown =~= dots + body.subrange(at - 60, at + 160) + dots);
    }
}

/// What is shown of a body without a hit: its first two hundred characters, with an ellipsis behind
/// them where there are more.
pub proof fn law_snippet_without_hit(body: Seq<char>)
    ensures
        body.len() <= 200 ==> snippet_of(body, None) == body,
        body.len() > 200 ==> snippet_of(body, None) == body.take(200) + seq!['\u{2026}'],
{
    if body.len() <= 200 {
        assert(snippet_of(body, None) =~= body);
    } else {
        assert(snippet_of(body, None) =~= body.take(200) + seq!['\u{2026}']);
    }
}

/// The terms of a query are its words in lower case, all of them and in their order.
pub proof fn law_terms_are_words(query: Seq<char>, k: int)
    ensures
        search_terms(query).len() == words(query).len(),
        0 <= k < words(query).len() ==> search_terms(query)[k] == lowercase(words(query)[k]),
{
}

/// The snippet of a body stands around the first place at which any word of the query occurs,
/// whatever the case of either, in a body whose lower case is as long as the body; where none
/// occurs in the lower case of the body, the start of the body is shown.
pub proof fn law_snippet_shows_first_word(body: Seq<char>, query: Seq<char>, at: int, k: int)
    ensures
        ({
            let low = lowercase(body);
            let shown = snippet_of(body, first_hit(body, search_terms(query)));
            &&& low.len() == body.len() && 0 <= at < low.len() && 0 <= k < words(query).len()
                && lowercase(words(query)[k]).is_prefix_of(low.skip(at)) && (forall|i: int, w: int|
                0 <= i < at && 0 <= w < words(query).len() ==> !lowercase(
                    #[trigger] words(query)[w],
                ).is_prefix_of(#[trigger] low.skip(i))) ==> shown == snippet_of(body, Some(at))
            &&& (forall|i: int, w: int|
                0 <= i < low.len() && 0 <= w < words(query).len() ==> !lowercase(
                    #[trigger] words(query)[w],
                ).is_prefix_of(#[trigger] low.skip(i))) ==> shown == snippet_of(body, None)
        }),
{
    let low = lowercase(body);
    let terms = search_terms(query);
    law_first_hit_is_first(body, terms);
    assert forall|w: int| 0 <= w < words(query).len() implies #[trigger] terms[w] == lowercase(
        words(query)[w],
    ) by {}
    if low.len() == body.len() && 0 <= at < low.len() && 0 <= k < words(query).len() && lowercase(
        words(query)[k],
    ).is_prefix_of(low.skip(at)) && (forall|i: int, w: int|
        0 <= i < at && 0 <= w < words(query).len() ==> !lowercase(
            #[trigger] words(query)[w],
        ).is_prefix_of(#[trigger] low.skip(i))) {
        assert(terms[k].is_prefix_of(low.skip(at)));
        assert(starts_any(low.skip(at), terms));
        assert forall|i: int| 0 <= i < at implies !starts_any(#[trigger] low.skip(i), terms) by {
            if starts_any(low.skip(i), terms) {
                let w = choose|w: int|
                    0 <= w < terms.len() && (#[trigger] terms[w]).is_prefix_of(low.skip(i));
                assert(lowercase(words(query)[w]).is_prefix_of(low.skip(i)));
            }
        }
        match hit_from(low, terms, 0) {
            Some(found) => {
                if found < at {
                    assert(!starts_any(low.skip(found), terms));
                }
                if at < found {
                    assert(!starts_any(low.skip(at), terms));
                }
            },
            None => {
                assert(!starts_any(low.skip(at), terms));
            },
        }
    }
    if forall|i: int, w: int|
        0 <= i < low.len() && 0 <= w < words(query).len() ==> !lowercase(
            #[trigger] words(query)[w],
        ).is_prefix_of(#[trigger] low.skip(i)) {
        if let Some(found) = hit_from(low, terms, 0) {
            let w = choose|w: int|
                0 <= w < terms.len() && (#[trigger] terms[w]).is_prefix_of(low.skip(found));
            assert(lowercase(words(query)[w]).is_prefix_of(low.skip(found)));
        }
    }
}

/// A search that is blank asks for nothing; any other asks for the query without the white space
/// around it, and for as many hits as are wanted, for twenty where no number is given and for fifty
/// where more are wanted.
pub proof fn law_search_asks_for_query(a: Seq<char>, q: Seq<char>, b: Seq<char>, n: i64)
    requires
        blank(a),
        blank(b),
        q.len() > 0,
        !white_space(q[0]),
        !white_space(q.last()),
    ensures
        search_plan_of(a + q + b, None) == Some((q, 20i64)),
        n <= 50 ==> search_plan_of(a + q + b, Some(n)) == Some((q, n)),
        n > 50 ==> search_plan_of(a + q + b, Some(n)) == Some((q, 50i64)),
        search_plan_of(a, Some(n)) is None,
        search_plan_of(a, None) is None,
{
    law_trimmed(a, q, b);
    law_trimmed_ends(a);
}

/// The hits of a search are listed one for each row of the index, in their order, with what is
/// stored of the page and the snippet for the query; a blank search lists none.
pub proof fn law_hits_are_listed(q: Seq<char>, limit: Option<i64>, rows: Seq<SearchRow>, i: int)
    ensures
        ({
            let results = items_of(field(search_answer(q, limit, rows), "results"@));
            &&& trimmed(q).len() == 0 ==> results.len() == 0 && field(
                search_answer(q, limit, rows),
                "results"@,
            ) is Some
            &&& trimmed(q).len() > 0 ==> results.len() == rows.len()
            &&& trimmed(q).len() > 0 && 0 <= i < rows.len() ==> {
                let hit = results[i];
                let row = rows[i];
                &&& field(hit, "id"@) == Some(JsonView::Str(row.document_id@))
                &&& field(hit, "title"@) == Some(JsonView::Str(row.title@))
                &&& field(hit, "type"@) == Some(JsonView::Str(short_type(row.source_type@)))
                &&& field(hit, "snippet"@) == Some(
                    JsonView::Str(
                        snippet_of(row.body@, first_hit(row.body@, search_terms(trimmed(q)))),
                    ),
                )
                &&& field(hit, "url"@) == Some(JsonView::Str(row.url@))
                &&& field(hit, "updated_at"@) == Some(JsonView::Str(iso_text(row.updated_at)))
            }
        }),
{
    reveal_strlit("id");
    reveal_strlit("title");
    reveal_strlit("type");
    reveal_strlit("snippet");
    reveal_strlit("url");
    reveal_strlit("updated_at");
    assert("id"@.len() == 2);
    assert("title"@.len() == 5);
    assert("type"@.len() == 4);
    assert("snippet"@.len() == 7);
    assert("url"@.len() == 3);
    assert("updated_at"@.len() == 10);
}

/// The lower case of the characters of a text is as long as that of the first ones and of the rest,
/// and that of one character as long as its lower case.
pub proof fn law_lower_length(a: Seq<char>, b: Seq<char>, c: char)
    ensures
        lower_length(a + b) == lower_length(a) + lower_length(b),
        lower_length(seq![c]) == lowercase(seq![c]).len(),
        lower_length(Seq::empty()) == 0,
    decreases b.len(),
{
    assert(seq![c].drop_last() =~= Seq::empty());
    assert(lower_length(seq![c].drop_last()) == 0);
    if b.len() == 0 {
        assert(a + b =~= a);
    } else {
        assert((a + b).drop_last() =~= a + b.drop_last());
        law_lower_length(a, b.drop_last(), c);
    }
}

} // verus!
