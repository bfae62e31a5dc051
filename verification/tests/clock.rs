use centaur_wiki::clock::{
    bucket_unit, iso, parse_moment, resolve_window, spell_out_zulu, window, Timestamp, DAY, FIRST,
    LAST, SECOND, WIDEST_OFFSET,
};
use time::format_description::well_known::Rfc3339;
use time::{OffsetDateTime, UtcOffset};

fn utc(seconds: i128) -> Timestamp {
    Timestamp { local_nanos: seconds * SECOND, offset_seconds: 0 }
}

fn stamp(moment: OffsetDateTime) -> Timestamp {
    Timestamp {
        local_nanos: moment.replace_offset(UtcOffset::UTC).unix_timestamp_nanos(),
        offset_seconds: moment.offset().whole_seconds(),
    }
}

const NOW: i128 = 1_767_225_600;

#[test]
fn a_point_in_time_has_its_text() {
    assert_eq!(iso(Some(utc(NOW))), "2026-01-01T00:00:00Z");
    assert_eq!(
        iso(Some(Timestamp { local_nanos: NOW * SECOND + 5, offset_seconds: -3600 })),
        "2026-01-01T00:00:00.000000005-01:00"
    );
}

#[test]
fn no_point_in_time_has_no_text() {
    assert_eq!(iso(None), "");
    // The year -1 has no text, nor has an offset of whole minutes and a second.
    assert_eq!(iso(Some(utc(-62_198_755_200))), "");
    assert_eq!(iso(Some(Timestamp { local_nanos: 0, offset_seconds: 61 })), "");
}

#[test]
fn the_limits_are_those_of_the_calendar() {
    let first = OffsetDateTime::from_unix_timestamp_nanos(FIRST).unwrap();
    assert_eq!(first.year(), -9999);
    assert!(OffsetDateTime::from_unix_timestamp_nanos(FIRST - 1).is_err());
    let last = OffsetDateTime::from_unix_timestamp_nanos(LAST).unwrap();
    assert_eq!(last.year(), 9999);
    assert!(OffsetDateTime::from_unix_timestamp_nanos(LAST + 1).is_err());
    assert!(UtcOffset::from_whole_seconds(WIDEST_OFFSET).is_ok());
    assert!(UtcOffset::from_whole_seconds(WIDEST_OFFSET + 1).is_err());
}

#[test]
fn texts_are_read_as_points_in_time() {
    assert_eq!(parse_moment(Some("2026-01-01T00:00:00Z")), Some(utc(NOW)));
    assert_eq!(
        parse_moment(Some("2026-01-01T02:30:00+02:30")),
        Some(Timestamp { local_nanos: (NOW + 9000) * SECOND, offset_seconds: 9000 })
    );
    assert_eq!(parse_moment(Some("")), None);
    assert_eq!(parse_moment(None), None);
    assert_eq!(parse_moment(Some("yesterday")), None);
    assert_eq!(parse_moment(Some("2026-01-01")), None);
}

#[test]
fn reading_a_point_in_time_undoes_writing_it() {
    for text in ["2026-01-01T00:00:00Z", "1969-12-31T23:59:59.5-07:00", "9999-12-31T23:59:59Z"] {
        let moment = OffsetDateTime::parse(text, &Rfc3339).unwrap();
        assert_eq!(parse_moment(Some(text)), Some(stamp(moment)));
        assert_eq!(iso(parse_moment(Some(text))), text);
    }
}

#[test]
fn every_zulu_mark_is_spelled_out() {
    assert_eq!(spell_out_zulu("2026-01-01T00:00:00Z"), "2026-01-01T00:00:00+00:00");
    assert_eq!(spell_out_zulu("ZaZ"), "+00:00a+00:00");
    assert_eq!(spell_out_zulu("z"), "z");
}

#[test]
fn a_span_takes_precedence() {
    let (start, end) =
        window(utc(NOW), Some(2 * DAY), Some("2020-01-01T00:00:00Z"), Some("2021-01-01T00:00:00Z"));
    assert_eq!(start, utc(NOW - 172_800));
    assert_eq!(end, utc(NOW));
    assert_eq!(window(utc(NOW), Some(0), None, None), (utc(NOW), utc(NOW)));
}

#[test]
fn stated_limits_are_taken_where_there_is_no_span() {
    let (start, end) =
        window(utc(NOW), None, Some("2020-01-01T00:00:00Z"), Some("2021-01-01T00:00:00Z"));
    assert_eq!(start, utc(1_577_836_800));
    assert_eq!(end, utc(1_609_459_200));
    let (start, end) = window(utc(NOW), None, Some("2020-01-01T00:00:00Z"), Some("later"));
    assert_eq!(start, utc(1_577_836_800));
    assert_eq!(end, utc(NOW));
}

#[test]
fn the_default_is_the_last_day() {
    assert_eq!(window(utc(NOW), None, None, None), (utc(NOW - 86_400), utc(NOW)));
    assert_eq!(window(utc(NOW), None, Some(""), Some("")), (utc(NOW - 86_400), utc(NOW)));
    assert_eq!(
        resolve_window(utc(NOW), None, None, Some(utc(5))),
        (utc(NOW - 86_400), utc(5))
    );
}

#[test]
fn seconds_are_counted_from_1970_and_rounded_down() {
    for (nanos, offset) in [(0, 0), (1, 0), (-1, 0), (-SECOND, 0), (5 * SECOND + 7, 3600), (0, 1)] {
        let t = Timestamp { local_nanos: nanos, offset_seconds: offset };
        let moment = OffsetDateTime::from_unix_timestamp_nanos(nanos)
            .unwrap()
            .replace_offset(UtcOffset::from_whole_seconds(offset).unwrap());
        assert_eq!(t.unix_timestamp(), moment.unix_timestamp());
    }
}

#[test]
fn the_unit_suits_the_window() {
    let unit = |span: i128| {
        let start = utc(NOW);
        let end = Timestamp { local_nanos: start.local_nanos + span, offset_seconds: 0 };
        bucket_unit(&start, &end)
    };
    let by_float = |span: i128| {
        let start = OffsetDateTime::from_unix_timestamp(NOW as i64).unwrap();
        let end = OffsetDateTime::from_unix_timestamp_nanos(NOW * SECOND + span).unwrap();
        let days = (end - start).as_seconds_f64() / 86_400.0;
        if days <= 2.0 {
            "hour"
        } else if days <= 45.0 {
            "day"
        } else if days <= 240.0 {
            "week"
        } else {
            "month"
        }
    };
    for days in [0, 1, 2, 3, 44, 45, 46, 239, 240, 241, 3000] {
        for more in [-SECOND, -2, -1, 0, 1, 2, 3, 4, 5, 100, SECOND] {
            let span = days * DAY + more;
            assert_eq!(unit(span), by_float(span), "{days} days and {more}");
        }
    }
    assert_eq!(unit(2 * DAY), "hour");
    assert_eq!(unit(45 * DAY), "day");
    assert_eq!(unit(46 * DAY), "week");
    assert_eq!(unit(240 * DAY), "week");
    assert_eq!(unit(241 * DAY), "month");
}
