use centaur_wiki::decimal::{parse_i64, to_decimal};
use centaur_wiki::order::{comes_before, sort_distinct};
use centaur_wiki::text::{
    is_white_space, join, part_after, part_before, same, split, split_words, starts_with,
    strip_prefix, strip_suffix, take_chars, trim,
};

#[test]
fn white_space_is_that_of_the_standard_library() {
    for n in 0..=0x10FFFFu32 {
        if let Some(c) = char::from_u32(n) {
            assert_eq!(is_white_space(c), c.is_whitespace(), "{n:x}");
        }
    }
}

#[test]
fn trimming_and_splitting_agree_with_the_standard_library() {
    for s in [
        "",
        " ",
        "a",
        "  a b\t",
        "\u{3000}wide\u{2003}",
        "no\u{200b}break",
        "a,b,,c",
        ",",
        "x:y:z",
        "été, hiver",
    ] {
        assert_eq!(trim(s), s.trim());
        assert_eq!(split(s, ','), s.split(',').collect::<Vec<_>>());
        assert_eq!(split_words(s), s.split_whitespace().collect::<Vec<_>>());
        assert_eq!(part_before(s, ':'), s.split(':').next().unwrap());
        assert_eq!(part_after(s, ':'), s.split_once(':').map_or("", |p| p.1));
        assert_eq!(take_chars(s, 2), s.chars().take(2).collect::<String>());
    }
}

#[test]
fn prefixes_and_suffixes() {
    assert!(starts_with("wiki:topic", "wiki:"));
    assert!(!starts_with("wik", "wiki:"));
    assert_eq!(strip_prefix("pr:x", "pr:").as_deref(), Some("x"));
    assert_eq!(strip_prefix("pr", "pr:"), None);
    assert_eq!(strip_suffix("a/revisions", "/revisions").as_deref(), Some("a"));
    assert_eq!(strip_suffix("revisions", "/revisions"), None);
    assert_eq!(join("a", "é"), "aé");
    assert!(same("né", "né"));
    assert!(!same("né", "ne"));
    assert!(!same("ne", "né"));
}

#[test]
fn texts_are_ordered_as_the_standard_library_orders_them() {
    let list = ["", "a", "aa", "ab", "b", "Z", "é", "\u{ffff}", "\u{10000}", "a\u{10000}", "~"];
    for a in list {
        for b in list {
            assert_eq!(comes_before(a, b), a < b, "{a:?} {b:?}");
        }
    }
}

#[test]
fn sorting_drops_repetitions() {
    let list: Vec<String> = ["C2", "C1", "C2", "", "C10"].map(str::to_owned).to_vec();
    assert_eq!(sort_distinct(&list), ["", "C1", "C10", "C2"]);
    assert_eq!(sort_distinct(&Vec::new()), Vec::<String>::new());
}

#[test]
fn decimals_go_both_ways() {
    for n in [0, 1, -1, 9, 10, -10, 1_700_000_000, i64::MAX, i64::MIN] {
        assert_eq!(to_decimal(n), n.to_string());
        assert_eq!(parse_i64(&n.to_string()), Some(n));
    }
}

#[test]
fn decimals_are_read_as_the_standard_library_reads_them() {
    for s in [
        "",
        "+",
        "-",
        "+7",
        "-0",
        "007",
        "1.5",
        " 1",
        "1 ",
        "9223372036854775807",
        "9223372036854775808",
        "-9223372036854775808",
        "-9223372036854775809",
        "00000000000000000000000000000042",
        "99999999999999999999999999",
        "٣",
    ] {
        assert_eq!(parse_i64(s), s.parse::<i64>().ok(), "{s:?}");
    }
}
