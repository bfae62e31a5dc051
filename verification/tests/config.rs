use centaur_wiki::config::{
    cors_layer, github_token, keep_header_values, lifecycle_repos, lifecycle_slack_channels,
    linear_team, list_setting, non_empty, parse_cors_origins, resolve_wiki_source, WikiSource,
};

#[test]
fn only_the_second_slice_is_chosen_by_name() {
    assert_eq!(resolve_wiki_source(Some("wiki_v2")), WikiSource::Second);
    assert_eq!(resolve_wiki_source(Some("  wiki_v2\n")), WikiSource::Second);
    for setting in [None, Some(""), Some("wiki"), Some("WIKI_V2"), Some("wiki_v2; drop")] {
        assert_eq!(resolve_wiki_source(setting), WikiSource::First);
    }
}

#[test]
fn each_slice_has_its_tables() {
    let first = WikiSource::First;
    assert_eq!(first.name(), "wiki");
    assert_eq!(first.ingested_table(), "wiki_ingested_sources");
    assert_eq!(first.revisions_table(), "wiki_page_revisions");
    assert_eq!(first.directives_table(), "wiki_directives");
    let second = WikiSource::Second;
    assert_eq!(second.name(), "wiki_v2");
    assert_eq!(second.ingested_table(), "wiki_ingested_sources_v2");
    assert_eq!(second.revisions_table(), "wiki_page_revisions_v2");
    assert_eq!(second.directives_table(), "wiki_directives_v2");
}

#[test]
fn lists_are_trimmed_and_lose_empty_entries() {
    assert_eq!(list_setting(Some(" a, b ,,c,")), ["a", "b", "c"]);
    assert_eq!(list_setting(Some(" , ")), Vec::<String>::new());
    assert_eq!(list_setting(None), Vec::<String>::new());
}

#[test]
fn repositories_have_a_default() {
    assert_eq!(lifecycle_repos(Some("x/y,z/w")), ["x/y", "z/w"]);
    assert_eq!(lifecycle_repos(Some(" ,")), ["Layr-Labs/d-inference"]);
    assert_eq!(lifecycle_repos(None), ["Layr-Labs/d-inference"]);
}

#[test]
fn the_first_token_that_is_set_is_taken() {
    assert_eq!(github_token(Some("a"), Some("b")).as_deref(), Some("a"));
    assert_eq!(github_token(Some(""), Some("b")).as_deref(), Some("b"));
    assert_eq!(github_token(None, Some("b")).as_deref(), Some("b"));
    assert_eq!(github_token(Some(""), Some("")), None);
    assert_eq!(github_token(None, None), None);
    assert_eq!(non_empty(Some("k")).as_deref(), Some("k"));
    assert_eq!(non_empty(Some("")), None);
    assert_eq!(non_empty(None), None);
}

#[test]
fn the_team_has_a_default() {
    assert_eq!(linear_team(Some("t")), "t");
    assert_eq!(linear_team(Some("")), "120662cb-3a74-4b46-8105-a80adee59391");
    assert_eq!(linear_team(None), "120662cb-3a74-4b46-8105-a80adee59391");
}

#[test]
fn channels_are_joined_sorted_and_distinct() {
    assert_eq!(lifecycle_slack_channels(Some("C3, C1"), Some("C2,C1")), ["C1", "C2", "C3"]);
    assert_eq!(lifecycle_slack_channels(Some(""), Some("C2")), ["C2"]);
    assert_eq!(
        lifecycle_slack_channels(None, Some(",")),
        ["C0B0CAQC8P5", "C0B0JMULP3L", "C0B6S8MUDRR", "C0B6YGM83N1"]
    );
}

#[test]
fn origins_are_a_json_array_of_strings() {
    assert_eq!(
        parse_cors_origins(Some("[\"https://a.example\", \"https:\\/\\/b.example\"]")).unwrap(),
        ["https://a.example", "https://b.example"]
    );
    assert_eq!(parse_cors_origins(Some("[]")), Some(Vec::new()));
    assert_eq!(parse_cors_origins(Some("https://a.example")), None);
    assert_eq!(parse_cors_origins(Some("[1]")), None);
    assert_eq!(parse_cors_origins(Some("[\"a\"] x")), None);
    assert_eq!(parse_cors_origins(None), None);
}

#[test]
fn origins_that_no_header_can_hold_are_dropped() {
    let list = ["ok", "", "tab\there", "line\nbreak", "\u{7f}", "é", "\u{0}"].map(str::to_owned);
    assert_eq!(keep_header_values(&list.to_vec()), ["ok", "", "tab\there", "é"]);
    for n in 0..300u32 {
        let s = char::from_u32(n).unwrap().to_string();
        let kept = keep_header_values(&vec![s.clone()]);
        assert_eq!(kept.len() == 1, axum::http::HeaderValue::from_str(&s).is_ok(), "{n}");
    }
}

#[test]
fn anyone_may_read_only_where_no_list_is_set() {
    let anyone = cors_layer(None);
    assert_eq!(anyone.origins, None);
    assert_eq!(anyone.methods, ["GET"]);
    assert!(anyone.any_header);
    assert_eq!(cors_layer(parse_cors_origins(Some("nonsense"))).origins, None);
}

#[test]
fn exactly_the_listed_origins_may_read() {
    assert_eq!(cors_layer(Some(Vec::new())).origins, Some(Vec::new()));
    assert_eq!(cors_layer(parse_cors_origins(Some("[]"))).origins, Some(Vec::new()));
    assert_eq!(cors_layer(parse_cors_origins(Some("[\"\\n\"]"))).origins, Some(Vec::new()));
    let some = cors_layer(parse_cors_origins(Some("[\"https://a.example\"]")));
    assert_eq!(some.origins.unwrap(), ["https://a.example"]);
    assert_eq!(some.methods, ["GET"]);
}
