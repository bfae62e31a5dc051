//! What the service takes from its settings.
use crate::order::{increasing, law_sorted_distinct, sort_distinct, sorted_distinct};
use crate::text::{
    blank, law_pieces, law_trimmed, optional_text, optional_texts, optional_view, pieces, same,
    split, texts, trim, trimmed,
};
use axum::http::HeaderValue;
use vstd::prelude::*;
use vstd::string::*;

verus! {

/// The slice of the knowledge base that is read.
#[derive(Clone, Copy, Debug, PartialEq, Eq, Structural)]
pub enum WikiSource {
    First,
    Second,
}

/// The slice that the setting names: only the two known slices can be chosen.
pub open spec fn chosen_source(setting: Option<Seq<char>>) -> WikiSource {
    match setting {
        Some(s) => if trimmed(s) == "wiki_v2"@ {
            WikiSource::Second
        } else {
            WikiSource::First
        },
        None => WikiSource::First,
    }
}

/// The slice that the setting names.
pub fn resolve_wiki_source(setting: Option<&str>) -> (r: WikiSource)
    ensures
        r == chosen_source(optional_view(setting)),
{
    match setting {
        Some(s) => if same(trim(s).as_str(), "wiki_v2") {
            WikiSource::Second
        } else {
            WikiSource::First
        },
        None => WikiSource::First,
    }
}

impl WikiSource {
    /// The name of the slice in the table of documents.
    pub open spec fn name_text(self) -> Seq<char> {
        match self {
            WikiSource::First => "wiki"@,
            WikiSource::Second => "wiki_v2"@,
        }
    }

    /// The table of ingested sources.
    pub open spec fn ingested_text(self) -> Seq<char> {
        match self {
            WikiSource::First => "wiki_ingested_sources"@,
            WikiSource::Second => "wiki_ingested_sources_v2"@,
        }
    }

    /// The table of page revisions.
    pub open spec fn revisions_text(self) -> Seq<char> {
        match self {
            WikiSource::First => "wiki_page_revisions"@,
            WikiSource::Second => "wiki_page_revisions_v2"@,
        }
    }

    /// The table of directives.
    pub open spec fn directives_text(self) -> Seq<char> {
        match self {
            WikiSource::First => "wiki_directives"@,
            WikiSource::Second => "wiki_directives_v2"@,
        }
    }

    /// The name of the slice in the table of documents.
    pub fn name(&self) -> (r: &'static str)
        ensures
            r@ == self.name_text(),
    {
        match self {
            WikiSource::First => "wiki",
            WikiSource::Second => "wiki_v2",
        }
    }

    /// The table of ingested sources.
    pub fn ingested_table(&self) -> (r: &'static str)
        ensures
            r@ == self.ingested_text(),
    {
        match self {
            WikiSource::First => "wiki_ingested_sources",
            WikiSource::Second => "wiki_ingested_sources_v2",
        }
    }

    /// The table of page revisions.
    pub fn revisions_table(&self) -> (r: &'static str)
        ensures
            r@ == self.revisions_text(),
    {
        match self {
            WikiSource::First => "wiki_page_revisions",
            WikiSource::Second => "wiki_page_revisions_v2",
        }
    }

    /// The table of directives.
    pub fn directives_table(&self) -> (r: &'static str)
        ensures
            r@ == self.directives_text(),
    {
        match self {
            WikiSource::First => "wiki_directives",
            WikiSource::Second => "wiki_directives_v2",
        }
    }
}

/// Whatever the setting holds, the slice and its tables are those of one of the two known
/// slices: the plain names, or all of them with `_v2` behind.
pub proof fn law_source_names(setting: Option<Seq<char>>)
    ensures
        ({
            let source = chosen_source(setting);
            let ending = if source == WikiSource::Second {
                "_v2"@
            } else {
                Seq::empty()
            };
            &&& source.name_text() == "wiki"@ + ending
            &&& source.ingested_text() == "wiki_ingested_sources"@ + ending
            &&& source.revisions_text() == "wiki_page_revisions"@ + ending
            &&& source.directives_text() == "wiki_directives"@ + ending
        }),
{
    reveal_strlit("_v2");
    reveal_strlit("wiki");
    reveal_strlit("wiki_v2");
    reveal_strlit("wiki_ingested_sources");
    reveal_strlit("wiki_ingested_sources_v2");
    reveal_strlit("wiki_page_revisions");
    reveal_strlit("wiki_page_revisions_v2");
    reveal_strlit("wiki_directives");
    reveal_strlit("wiki_directives_v2");
    let source = chosen_source(setting);
    let ending = if source == WikiSource::Second {
        "_v2"@
    } else {
        Seq::empty()
    };
    assert(source.name_text() =~= "wiki"@ + ending);
    assert(source.ingested_text() =~= "wiki_ingested_sources"@ + ending);
    assert(source.revisions_text() =~= "wiki_page_revisions"@ + ending);
    assert(source.directives_text() =~= "wiki_directives"@ + ending);
}

/// The texts of `parts` without the white space around them, where anything is left.
pub open spec fn entries(parts: Seq<Seq<char>>) -> Seq<Seq<char>>
    decreases parts.len(),
{
    if parts.len() == 0 {
        parts
    } else if trimmed(parts.last()).len() == 0 {
        entries(parts.drop_last())
    } else {
        entries(parts.drop_last()).push(trimmed(parts.last()))
    }
}

/// The entries of a setting that lists them between commas; none where it is not set.
pub open spec fn listed(setting: Option<Seq<char>>) -> Seq<Seq<char>> {
    match setting {
        Some(s) => entries(pieces(s, ',')),
        None => Seq::empty(),
    }
}

/// The entries of a setting that lists them between commas.
pub fn list_setting(setting: Option<&str>) -> (r: Vec<String>)
    ensures
        texts(r@) == listed(optional_view(setting)),
{
    let mut out: Vec<String> = Vec::new();
    if let Some(s) = setting {
        let parts = split(s, ',');
        let ghost all = texts(parts@);
        let mut i: usize = 0;
        proof {
            assert(all.take(0) =~= Seq::empty());
            assert(texts(out@) =~= Seq::empty());
        }
        while i < parts.len()
            invariant
                i <= parts@.len(),
                all == texts(parts@),
                texts(out@) == entries(all.take(i as int)),
            decreases parts@.len() - i,
        {
            let entry = trim(parts[i].as_str());
            let ghost before = out@;
            proof {
                assert(all.take(i + 1).drop_last() =~= all.take(i as int));
                assert(all.take(i + 1).last() == parts@[i as int]@);
            }
            if !entry.as_str().is_empty() {
                out.push(entry);
                proof {
                    assert(texts(out@) =~= texts(before).push(entry@));
                }
            }
            i += 1;
        }
        proof {
            assert(all.take(i as int) =~= all);
        }
    } else {
        proof {
            assert(texts(out@) =~= Seq::empty());
        }
    }
    out
}

/// The repositories whose activity is read: those that the setting lists, or the default one.
pub open spec fn repos_of(setting: Option<Seq<char>>) -> Seq<Seq<char>> {
    if listed(setting).len() == 0 {
        seq!["Layr-Labs/d-inference"@]
    } else {
        listed(setting)
    }
}

/// The repositories whose activity is read.
pub fn lifecycle_repos(setting: Option<&str>) -> (r: Vec<String>)
    ensures
        texts(r@) == repos_of(optional_view(setting)),
{
    let mut repos = list_setting(setting);
    if repos.len() == 0 {
        repos.push("Layr-Labs/d-inference".to_owned());
        proof {
            assert(texts(repos@) =~= seq!["Layr-Labs/d-inference"@]);
        }
    }
    repos
}

/// The first of two settings that is set to something, if one is.
pub open spec fn first_set(
    first: Option<Seq<char>>,
    second: Option<Seq<char>>,
) -> Option<Seq<char>> {
    match first {
        Some(s) if s.len() > 0 => Some(s),
        _ => match second {
            Some(s) if s.len() > 0 => Some(s),
            _ => None,
        },
    }
}

/// A setting that is set to something.
pub fn non_empty(setting: Option<&str>) -> (r: Option<String>)
    ensures
        optional_text(r) == first_set(optional_view(setting), None),
{
    match setting {
        Some(s) => if s.is_empty() {
            None
        } else {
            Some(s.to_owned())
        },
        None => None,
    }
}

/// The token for the code host: the review token, or else the gateway token.
pub fn github_token(review: Option<&str>, gateway: Option<&str>) -> (r: Option<String>)
    ensures
        optional_text(r) == first_set(optional_view(review), optional_view(gateway)),
{
    match non_empty(review) {
        Some(s) => Some(s),
        None => non_empty(gateway),
    }
}

/// The team whose issues are read: the one that is set, or the default one.
pub open spec fn team_of(setting: Option<Seq<char>>) -> Seq<char> {
    match first_set(setting, None) {
        Some(s) => s,
        None => "120662cb-3a74-4b46-8105-a80adee59391"@,
    }
}

/// The team whose issues are read.
pub fn linear_team(setting: Option<&str>) -> (r: String)
    ensures
        r@ == team_of(optional_view(setting)),
{
    match non_empty(setting) {
        Some(s) => s,
        None => "120662cb-3a74-4b46-8105-a80adee59391".to_owned(),
    }
}

/// The channels that are scanned where none are set.
pub open spec fn default_channels() -> Seq<Seq<char>> {
    seq!["C0B0CAQC8P5"@, "C0B0JMULP3L"@, "C0B6S8MUDRR"@, "C0B6YGM83N1"@]
}

/// The channels that are scanned, in order and each once: those that the two settings list, or
/// the default ones where they list none.
pub open spec fn channels_of(
    provider: Option<Seq<char>>,
    internal: Option<Seq<char>>,
) -> Seq<Seq<char>> {
    let all = listed(provider) + listed(internal);
    sorted_distinct(
        if all.len() == 0 {
            default_channels()
        } else {
            all
        },
    )
}

/// The channels that are scanned.
pub fn lifecycle_slack_channels(provider: Option<&str>, internal: Option<&str>) -> (r: Vec<String>)
    ensures
        texts(r@) == channels_of(optional_view(provider), optional_view(internal)),
{
    let mut all = list_setting(provider);
    let mut more = list_setting(internal);
    let ghost first = all@;
    let ghost second = more@;
    all.append(&mut more);
    proof {
        assert(texts(all@) =~= texts(first) + texts(second));
    }
    if all.len() == 0 {
        all.push("C0B0CAQC8P5".to_owned());
        all.push("C0B0JMULP3L".to_owned());
        all.push("C0B6S8MUDRR".to_owned());
        all.push("C0B6YGM83N1".to_owned());
        proof {
            assert(texts(all@) =~= default_channels());
        }
    }
    sort_distinct(&all)
}

/// The strings of the JSON array of strings that a text holds, if it holds one.
pub uninterp spec fn json_strings(text: Seq<char>) -> Option<Seq<Seq<char>>>;

/// `serde_json::from_str` into a list of strings: what it reads depends on the text alone.
#[verifier::external_body]
fn parse_json_strings(text: &str) -> (r: Option<Vec<String>>)
    ensures
        optional_texts(r) == json_strings(text@),
{
    serde_json::from_str(text).ok()
}

/// Whether a byte may stand in a header value: any but the control characters, and the tab.
pub open spec fn header_byte(b: u8) -> bool {
    (b >= 32 && b != 127) || b == 9
}

/// Whether a text can be a header value.
pub open spec fn header_text(s: Seq<char>) -> bool {
    forall|i: int|
        0 <= i < vstd::utf8::encode_utf8(s).len() ==> header_byte(
            #[trigger] vstd::utf8::encode_utf8(s)[i],
        )
}

/// `http::HeaderValue::from_str` accepts a text whose bytes may all stand in a header value, and
/// no other.
#[verifier::external_body]
fn is_header_value(s: &str) -> (r: bool)
    ensures
        r == header_text(s@),
{
    HeaderValue::from_str(s).is_ok()
}

/// The texts of `list` that can be header values.
pub open spec fn header_texts(list: Seq<Seq<char>>) -> Seq<Seq<char>>
    decreases list.len(),
{
    if list.len() == 0 {
        list
    } else if header_text(list.last()) {
        header_texts(list.drop_last()).push(list.last())
    } else {
        header_texts(list.drop_last())
    }
}

/// The texts of `list` that can be header values.
pub fn keep_header_values(list: &Vec<String>) -> (r: Vec<String>)
    ensures
        texts(r@) == header_texts(texts(list@)),
{
    let ghost all = texts(list@);
    let mut out: Vec<String> = Vec::new();
    let mut i: usize = 0;
    proof {
        assert(all.take(0) =~= Seq::empty());
        assert(texts(out@) =~= Seq::empty());
    }
    while i < list.len()
        invariant
            i <= list@.len(),
            all == texts(list@),
            texts(out@) == header_texts(all.take(i as int)),
        decreases list@.len() - i,
    {
        let ghost before = out@;
        proof {
            assert(all.take(i + 1).drop_last() =~= all.take(i as int));
            assert(all.take(i + 1).last() == list@[i as int]@);
        }
        if is_header_value(list[i].as_str()) {
            out.push(list[i].clone());
            proof {
                assert(texts(out@) =~= texts(before).push(list@[i as int]@));
            }
        }
        i += 1;
    }
    proof {
        assert(all.take(i as int) =~= all);
    }
    out
}

/// The origins that the setting lists as a JSON array, without those that no header can hold; none
/// where it is not set or is no such array.
pub open spec fn origins_of(setting: Option<Seq<char>>) -> Option<Seq<Seq<char>>> {
    match setting {
        Some(s) => match json_strings(s) {
            Some(list) => Some(header_texts(list)),
            None => None,
        },
        None => None,
    }
}

/// The origins that the setting lists.
pub fn parse_cors_origins(setting: Option<&str>) -> (r: Option<Vec<String>>)
    ensures
        optional_texts(r) == origins_of(optional_view(setting)),
{
    match setting {
        Some(s) => match parse_json_strings(s) {
            Some(list) => Some(keep_header_values(&list)),
            None => None,
        },
        None => None,
    }
}

/// Who may read across origins, and how.
#[derive(Debug, PartialEq, Eq)]
pub struct CorsPolicy {
    /// The origins that may read; anyone where there is no list.
    pub origins: Option<Vec<String>>,
    /// The methods that may be used.
    pub methods: Vec<String>,
    /// Whether any header may be sent.
    pub any_header: bool,
}

/// Who may read across origins, and how, as texts.
pub struct CorsPolicyView {
    pub origins: Option<Seq<Seq<char>>>,
    pub methods: Seq<Seq<char>>,
    pub any_header: bool,
}

impl View for CorsPolicy {
    type V = CorsPolicyView;

    open spec fn view(&self) -> CorsPolicyView {
        CorsPolicyView {
            origins: optional_texts(self.origins),
            methods: texts(self.methods@),
            any_header: self.any_header,
        }
    }
}

/// What is allowed where `origins` were listed: reading, with any header, from exactly those
/// origins, also where there are none of them; from anywhere where no list was given.
pub open spec fn policy_of(origins: Option<Seq<Seq<char>>>) -> CorsPolicyView {
    CorsPolicyView { origins, methods: seq!["GET"@], any_header: true }
}

/// What is allowed across origins, from the origins that were listed.
pub fn cors_layer(origins: Option<Vec<String>>) -> (r: CorsPolicy)
    ensures
        r@ == policy_of(optional_texts(origins)),
{
    let mut methods: Vec<String> = Vec::new();
    methods.push("GET".to_owned());
    proof {
        assert(texts(methods@) =~= seq!["GET"@]);
    }
    CorsPolicy { origins, methods, any_header: true }
}

/// Where the setting is a JSON array of strings, exactly those of them are allowed that a header
/// can hold, and by reading alone; anyone is allowed only where it is no such array.
pub proof fn law_listed_origins_are_allowed(setting: Seq<char>)
    ensures
        match json_strings(setting) {
            Some(list) => policy_of(origins_of(Some(setting))).origins == Some(header_texts(list)),
            None => policy_of(origins_of(Some(setting))).origins is None,
        },
        policy_of(origins_of(None)).origins is None,
        policy_of(origins_of(Some(setting))).methods == seq!["GET"@],
{
}

/// The second slice is read exactly where the setting is its name, with or without white space
/// around it, and the first one in every other case.
pub proof fn law_source_is_chosen(a: Seq<char>, b: Seq<char>, setting: Seq<char>)
    ensures
        blank(a) && blank(b) ==> chosen_source(Some(a + "wiki_v2"@ + b)) == WikiSource::Second,
        trimmed(setting) != "wiki_v2"@ ==> chosen_source(Some(setting)) == WikiSource::First,
        chosen_source(None) == WikiSource::First,
{
    reveal_strlit("wiki_v2");
    if blank(a) && blank(b) {
        assert("wiki_v2"@[0] == 'w');
        assert("wiki_v2"@.last() == '2');
        law_trimmed(a, "wiki_v2"@, b);
    }
}

/// A setting lists what stands between its commas, without the white space around it, in its order,
/// and nothing where only white space stands; a setting that is not set lists nothing.
pub proof fn law_setting_lists_entries(a: Seq<char>, rest: Seq<char>)
    requires
        !a.contains(','),
    ensures
        listed(Some(a + seq![','] + rest)) == listed(Some(a)) + listed(Some(rest)),
        trimmed(a).len() > 0 ==> listed(Some(a)) == seq![trimmed(a)],
        trimmed(a).len() == 0 ==> listed(Some(a)).len() == 0,
        listed(None).len() == 0,
{
    law_pieces(a, ',', rest);
    lemma_entries_concat(seq![a], pieces(rest, ','));
    let one = seq![a];
    assert(one.drop_last() =~= Seq::empty());
    assert(entries(one.drop_last()) =~= Seq::empty());
    assert(Seq::empty().push(trimmed(a)) =~= seq![trimmed(a)]);
}

proof fn lemma_entries_concat(a: Seq<Seq<char>>, b: Seq<Seq<char>>)
    ensures
        entries(a + b) == entries(a) + entries(b),
    decreases b.len(),
{
    if b.len() == 0 {
        assert(a + b =~= a);
    } else {
        assert((a + b).drop_last() =~= a + b.drop_last());
        lemma_entries_concat(a, b.drop_last());
    }
    assert(entries(a + b) =~= entries(a) + entries(b));
}

/// The repositories, the team and the channels are those that are set, and the default ones where
/// none is. The channels are those of both settings, each once and in order.
pub proof fn law_settings_have_defaults(
    setting: Option<Seq<char>>,
    other: Option<Seq<char>>,
    x: Seq<char>,
)
    ensures
        listed(setting).len() > 0 ==> repos_of(setting) == listed(setting),
        listed(setting).len() == 0 ==> repos_of(setting) == seq!["Layr-Labs/d-inference"@],
        setting matches Some(s) ==> s.len() > 0 ==> team_of(setting) == s,
        setting matches Some(s) ==> s.len() == 0 ==> team_of(setting)
            == "120662cb-3a74-4b46-8105-a80adee59391"@,
        setting is None ==> team_of(setting) == "120662cb-3a74-4b46-8105-a80adee59391"@,
        increasing(channels_of(setting, other)),
        listed(setting).len() + listed(other).len() > 0 ==> (channels_of(setting, other).contains(x)
            <==> listed(setting).contains(x) || listed(other).contains(x)),
        listed(setting).len() + listed(other).len() == 0 ==> (channels_of(setting, other).contains(
            x,
        ) <==> x == "C0B0CAQC8P5"@ || x == "C0B0JMULP3L"@ || x == "C0B6S8MUDRR"@ || x
            == "C0B6YGM83N1"@),
{
    let all = listed(setting) + listed(other);
    let names = default_channels();
    law_sorted_distinct(all);
    law_sorted_distinct(names);
    assert(names[0] == "C0B0CAQC8P5"@);
    assert(names[1] == "C0B0JMULP3L"@);
    assert(names[2] == "C0B6S8MUDRR"@);
    assert(names[3] == "C0B6YGM83N1"@);
    if listed(setting).contains(x) {
        assert(all[listed(setting).index_of(x)] == x);
    }
    if listed(other).contains(x) {
        assert(all[listed(setting).len() + listed(other).index_of(x)] == x);
    }
    if all.contains(x) {
        let k = all.index_of(x);
        if k < listed(setting).len() {
            assert(listed(setting)[k] == x);
        } else {
            assert(listed(other)[k - listed(setting).len()] == x);
        }
    }
}

/// Of two settings the first that is set to something counts, and neither where both are empty or
/// missing.
pub proof fn law_first_setting_counts(s: Seq<char>, second: Option<Seq<char>>)
    ensures
        s.len() > 0 ==> first_set(Some(s), second) == Some(s),
        s.len() == 0 ==> first_set(Some(s), second) == first_set(None, second),
        s.len() > 0 ==> first_set(None, Some(s)) == Some(s),
        s.len() == 0 ==> first_set(None, Some(s)) is None,
        first_set(None, None) is None,
{
}

/// A list of origins keeps, in their order, exactly those that a header can hold: all of whose bytes
/// are tabs, or neither control characters nor the delete character.
pub proof fn law_header_texts_are_kept(a: Seq<Seq<char>>, b: Seq<Seq<char>>, s: Seq<char>)
    ensures
        header_texts(a + b) == header_texts(a) + header_texts(b),
        (forall|i: int|
            0 <= i < vstd::utf8::encode_utf8(s).len() ==> (#[trigger] vstd::utf8::encode_utf8(
                s,
            )[i] == 9 || (vstd::utf8::encode_utf8(s)[i] >= 32 && vstd::utf8::encode_utf8(s)[i]
                != 127))) ==> header_texts(seq![s]) == seq![s],
        (exists|i: int|
            0 <= i < vstd::utf8::encode_utf8(s).len() && #[trigger] vstd::utf8::encode_utf8(s)[i]
                != 9 && (vstd::utf8::encode_utf8(s)[i] < 32 || vstd::utf8::encode_utf8(s)[i]
                == 127)) ==> header_texts(seq![s]).len() == 0,
    decreases b.len(),
{
    let one = seq![s];
    assert(one.drop_last() =~= Seq::empty());
    assert(header_texts(one.drop_last()) =~= Seq::empty());
    assert(Seq::empty().push(s) =~= one);
    if b.len() == 0 {
        assert(a + b =~= a);
    } else {
        assert((a + b).drop_last() =~= a + b.drop_last());
        law_header_texts_are_kept(a, b.drop_last(), s);
    }
    assert(header_texts(a + b) =~= header_texts(a) + header_texts(b));
    if exists|i: int|
        0 <= i < vstd::utf8::encode_utf8(s).len() && #[trigger] vstd::utf8::encode_utf8(s)[i] != 9
            && (vstd::utf8::encode_utf8(s)[i] < 32 || vstd::utf8::encode_utf8(s)[i] == 127) {
        let i = choose|i: int|
            0 <= i < vstd::utf8::encode_utf8(s).len() && #[trigger] vstd::utf8::encode_utf8(s)[i]
                != 9 && (vstd::utf8::encode_utf8(s)[i] < 32 || vstd::utf8::encode_utf8(s)[i]
                == 127);
        assert(!header_byte(vstd::utf8::encode_utf8(s)[i]));
    }
}

/// What is allowed across origins, by what the policy holds; any header is allowed.
pub proof fn law_policy_is_its_texts(policy: CorsPolicy, origins: Option<Seq<Seq<char>>>)
    ensures
        policy@.origins == optional_texts(policy.origins),
        policy@.methods == texts(policy.methods@),
        policy@.any_header == policy.any_header,
        policy_of(origins).origins == origins,
        policy_of(origins).methods == seq!["GET"@],
        policy_of(origins).any_header,
{
}

} // verus!
