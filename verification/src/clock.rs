//! Points in time, their text form, and the windows that a query asks about.
use crate::text::{chars_of, optional_text, optional_view};
use time::format_description::well_known::Rfc3339;
use time::{OffsetDateTime, UtcOffset};
use vstd::prelude::*;
use vstd::string::*;

verus! {

/// Nanoseconds in a second.
pub const SECOND: i128 = 1_000_000_000;

/// Nanoseconds in a day.
pub const DAY: i128 = 86_400_000_000_000;

/// The first nanosecond of the year -9999, counted from 1970.
pub const FIRST: i128 = -377_705_116_800_000_000_000;

/// The last nanosecond of the year 9999, counted from 1970.
pub const LAST: i128 = 253_402_300_799_999_999_999;

/// The largest offset from universal time, in seconds.
pub const WIDEST_OFFSET: i32 = 93_599;

/// A point in time, as a clock at a given offset from universal time shows it.
#[derive(Clone, Copy, Debug, PartialEq, Eq)]
pub struct Timestamp {
    /// What the local clock shows, in nanoseconds since it showed the start of 1970.
    pub local_nanos: i128,
    /// How far the local clock is ahead of universal time.
    pub offset_seconds: i32,
}

impl Timestamp {
    /// Whether the local date has a year of at most four digits, and the offset is a real one.
    pub open spec fn valid(self) -> bool {
        &&& FIRST <= self.local_nanos <= LAST
        &&& -WIDEST_OFFSET <= self.offset_seconds <= WIDEST_OFFSET
    }

    /// Nanoseconds since the start of 1970 in universal time.
    pub open spec fn unix_nanos(self) -> int {
        self.local_nanos - self.offset_seconds * SECOND
    }

    /// This point in time, moved back by `span` nanoseconds.
    pub open spec fn earlier(self, span: int) -> Timestamp {
        Timestamp { local_nanos: (self.local_nanos - span) as i128, ..self }
    }

    /// Whether moving back by `span` nanoseconds leads to a valid point in time.
    pub open spec fn can_go_back(self, span: int) -> bool {
        self.valid() && FIRST <= self.local_nanos - span <= LAST
    }

    /// Nanoseconds since the start of 1970 in universal time.
    pub fn unix_timestamp_nanos(&self) -> (r: i128)
        requires
            self.valid(),
        ensures
            r == self.unix_nanos(),
    {
        self.local_nanos - self.offset_seconds as i128 * SECOND
    }

    /// Whole seconds since the start of 1970 in universal time, rounded down.
    pub fn unix_timestamp(&self) -> (r: i64)
        requires
            self.valid(),
        ensures
            r == self.unix_nanos() / (SECOND as int),
    {
        let nanos: i128 = self.unix_timestamp_nanos();
        let rest: i128 = if nanos >= 0 {
            nanos % SECOND
        } else {
            let short: i128 = (-nanos) % SECOND;
            if short == 0 {
                0
            } else {
                SECOND - short
            }
        };
        let whole: i128 = nanos - rest;
        if whole >= 0 {
            (whole / SECOND) as i64
        } else {
            (-((-whole) / SECOND)) as i64
        }
    }
}

/// The text that RFC 3339 gives to a local time at an offset from universal time, if it has one.
pub uninterp spec fn rfc3339_text(local_nanos: i128, offset_seconds: i32) -> Option<Seq<char>>;

/// The local time and the offset from universal time that a text states by RFC 3339, if it
/// states any.
pub uninterp spec fn rfc3339_moment(text: Seq<char>) -> Option<(i128, i32)>;

/// `time::OffsetDateTime::format` with `Rfc3339`: the text depends on the local time and the
/// offset alone, and there is none where the standard has none.
#[verifier::external_body]
fn format_rfc3339(local_nanos: i128, offset_seconds: i32) -> (r: Option<String>)
    ensures
        optional_text(r) == rfc3339_text(local_nanos, offset_seconds),
{
    let offset = UtcOffset::from_whole_seconds(offset_seconds).ok()?;
    let moment = OffsetDateTime::from_unix_timestamp_nanos(local_nanos).ok()?.replace_offset(offset);
    moment.format(&Rfc3339).ok()
}

/// `time::OffsetDateTime::parse` with `Rfc3339`: the point in time depends on the text alone. Its
/// date has a year between -9999 and 9999, and its offset is below 26 hours.
#[verifier::external_body]
fn parse_rfc3339(text: &str) -> (r: Option<(i128, i32)>)
    ensures
        r == rfc3339_moment(text@),
        r matches Some((local_nanos, offset_seconds)) ==> FIRST <= local_nanos <= LAST
            && -WIDEST_OFFSET <= offset_seconds <= WIDEST_OFFSET,
{
    let moment = OffsetDateTime::parse(text, &Rfc3339).ok()?;
    let local = moment.replace_offset(UtcOffset::UTC);
    Some((local.unix_timestamp_nanos(), moment.offset().whole_seconds()))
}

/// The text of a point in time; nothing where it is absent or has none.
pub open spec fn iso_text(ts: Option<Timestamp>) -> Seq<char> {
    match ts {
        Some(t) => match rfc3339_text(t.local_nanos, t.offset_seconds) {
            Some(s) => s,
            None => Seq::empty(),
        },
        None => Seq::empty(),
    }
}

/// The text of a point in time, or an empty text where there is none.
pub fn iso(ts: Option<Timestamp>) -> (r: String)
    ensures
        r@ == iso_text(ts),
{
    match ts {
        Some(t) => match format_rfc3339(t.local_nanos, t.offset_seconds) {
            Some(s) => s,
            None => String::new(),
        },
        None => String::new(),
    }
}

/// `s` with each `Z` spelled out as the offset that it stands for.
pub open spec fn zulu_spelled_out(s: Seq<char>) -> Seq<char>
    decreases s.len(),
{
    if s.len() == 0 {
        s
    } else if s.last() == 'Z' {
        zulu_spelled_out(s.drop_last()) + "+00:00"@
    } else {
        zulu_spelled_out(s.drop_last()).push(s.last())
    }
}

/// The point in time that a query parameter states, if it does.
pub open spec fn stated_moment(text: Option<Seq<char>>) -> Option<Timestamp> {
    match text {
        Some(s) => if s.len() == 0 {
            None
        } else {
            match rfc3339_moment(zulu_spelled_out(s)) {
                Some((local_nanos, offset_seconds)) => Some(
                    Timestamp { local_nanos, offset_seconds },
                ),
                None => None,
            }
        },
        None => None,
    }
}

/// `s` with each `Z` spelled out as the offset that it stands for.
pub fn spell_out_zulu(s: &str) -> (r: String)
    ensures
        r@ == zulu_spelled_out(s@),
{
    let chars = chars_of(s);
    let mut out = String::new();
    let mut i: usize = 0;
    proof {
        assert(s@.take(0) =~= Seq::<char>::empty());
    }
    while i < chars.len()
        invariant
            chars@ == s@,
            i <= chars@.len(),
            out@ == zulu_spelled_out(s@.take(i as int)),
        decreases chars@.len() - i,
    {
        proof {
            assert(s@.take(i + 1).drop_last() =~= s@.take(i as int));
        }
        if chars[i] == 'Z' {
            out.append("+00:00");
        } else {
            out.push(chars[i]);
        }
        i += 1;
    }
    proof {
        assert(s@.take(i as int) =~= s@);
    }
    out
}

/// The point in time that a query parameter states, if it does.
pub fn parse_moment(text: Option<&str>) -> (r: Option<Timestamp>)
    ensures
        r == stated_moment(optional_view(text)),
        r matches Some(t) ==> t.valid(),
{
    match text {
        Some(s) => {
            let chars = chars_of(s);
            if chars.len() == 0 {
                None
            } else {
                match parse_rfc3339(spell_out_zulu(s).as_str()) {
                    Some((local_nanos, offset_seconds)) => Some(
                        Timestamp { local_nanos, offset_seconds },
                    ),
                    None => None,
                }
            }
        },
        None => None,
    }
}

/// The window that a query asks about: the last `span` nanoseconds where it gives a span, else
/// from `since` to `until`, by default from a day ago to now.
pub open spec fn window_of(
    now: Timestamp,
    span: Option<i128>,
    since: Option<Timestamp>,
    until: Option<Timestamp>,
) -> (Timestamp, Timestamp) {
    match span {
        Some(n) => (now.earlier(n as int), now),
        None => (
            match since {
                Some(t) => t,
                None => now.earlier(DAY as int),
            },
            match until {
                Some(t) => t,
                None => now,
            },
        ),
    }
}

/// The window between two points in time that may have been stated.
pub fn resolve_window(
    now: Timestamp,
    span: Option<i128>,
    since: Option<Timestamp>,
    until: Option<Timestamp>,
) -> (r: (Timestamp, Timestamp))
    requires
        span matches Some(n) ==> now.can_go_back(n as int),
        span is None ==> now.can_go_back(DAY as int),
    ensures
        r == window_of(now, span, since, until),
{
    if let Some(n) = span {
        return (Timestamp { local_nanos: now.local_nanos - n, ..now }, now);
    }
    let yesterday = Timestamp { local_nanos: now.local_nanos - DAY, ..now };
    let start = match since {
        Some(t) => t,
        None => yesterday,
    };
    let end = match until {
        Some(t) => t,
        None => now,
    };
    (start, end)
}

/// The window that a query asks about. `span` is the relative window in nanoseconds and takes
/// precedence; `since` and `until` are RFC 3339 texts, and one that is empty or states no point
/// in time counts as absent.
pub fn window(
    now: Timestamp,
    span: Option<i128>,
    since: Option<&str>,
    until: Option<&str>,
) -> (r: (Timestamp, Timestamp))
    requires
        span matches Some(n) ==> now.can_go_back(n as int),
        span is None ==> now.can_go_back(DAY as int),
    ensures
        r == window_of(
            now,
            span,
            stated_moment(optional_view(since)),
            stated_moment(optional_view(until)),
        ),
        r.0.valid(),
        r.1.valid(),
{
    resolve_window(now, span, parse_moment(since), parse_moment(until))
}

/// The end that a query states: `until`, where it gives no span and `until` states a point in
/// time.
pub open spec fn end_of(span: Option<i128>, until: Option<Timestamp>) -> Option<Timestamp> {
    match span {
        Some(_) => None,
        None => until,
    }
}

/// The end that a query states, if it states one.
pub fn stated_end(span: Option<i128>, until: Option<&str>) -> (r: Option<Timestamp>)
    ensures
        r == end_of(span, stated_moment(optional_view(until))),
        r matches Some(t) ==> t.valid(),
{
    match span {
        Some(_) => None,
        None => parse_moment(until),
    }
}

/// The end of a window is the end that the query states, and now where it states none.
pub proof fn law_window_end(
    now: Timestamp,
    span: Option<i128>,
    since: Option<Timestamp>,
    until: Option<Timestamp>,
)
    ensures
        window_of(now, span, since, until).1 == match end_of(span, until) {
            Some(end) => end,
            None => now,
        },
{
}

/// A relative window reaches back from now by its span, whatever else the query states.
pub proof fn law_span_takes_precedence(
    now: Timestamp,
    span: i128,
    since: Option<Timestamp>,
    until: Option<Timestamp>,
)
    requires
        now.can_go_back(span as int),
    ensures
        window_of(now, Some(span), since, until).0.unix_nanos() == now.unix_nanos() - span,
        window_of(now, Some(span), since, until).1 == now,
{
}

/// A query that states nothing asks about the last day.
pub proof fn law_default_window(now: Timestamp)
    requires
        now.can_go_back(DAY as int),
    ensures
        window_of(now, None, None, None).0.unix_nanos() == now.unix_nanos() - DAY,
        window_of(now, None, None, None).1 == now,
{
}

/// The longest window of two hundred and forty days. Its length in days is taken in double
/// precision, where a nanosecond more cannot be told apart.
pub const LONGEST_BY_WEEK: i128 = 20_736_000_000_000_001;

/// The unit by which revisions are counted over a window of `span` nanoseconds.
pub open spec fn unit_for(span: int) -> Seq<char> {
    if span <= 2 * DAY {
        "hour"@
    } else if span <= 45 * DAY {
        "day"@
    } else if span <= LONGEST_BY_WEEK {
        "week"@
    } else {
        "month"@
    }
}

/// The unit by which revisions are counted over the window from `start` to `end`.
pub fn bucket_unit(start: &Timestamp, end: &Timestamp) -> (r: &'static str)
    requires
        start.valid(),
        end.valid(),
    ensures
        r@ == unit_for(end.unix_nanos() - start.unix_nanos()),
{
    let span: i128 = end.unix_timestamp_nanos() - start.unix_timestamp_nanos();
    if span <= 2 * DAY {
        "hour"
    } else if span <= 45 * DAY {
        "day"
    } else if span <= LONGEST_BY_WEEK {
        "week"
    } else {
        "month"
    }
}

/// A point in time does not depend on the offset at which a clock shows it: a clock that is ahead by
/// some seconds and shows a time later by as much shows the same point.
pub proof fn law_offset_does_not_matter(t: Timestamp, ahead: int, other: Timestamp)
    requires
        other.offset_seconds == t.offset_seconds + ahead,
        other.local_nanos == t.local_nanos + ahead * 1_000_000_000,
    ensures
        other.unix_nanos() == t.unix_nanos(),
        t.offset_seconds == 0 ==> t.unix_nanos() == t.local_nanos,
{
}

/// A window without a span starts where the query says, and a day before now where it does not say;
/// the one does not depend on whether an end is stated.
pub proof fn law_window_start(now: Timestamp, since: Timestamp, until: Option<Timestamp>)
    requires
        now.can_go_back(DAY as int),
    ensures
        window_of(now, None, Some(since), until).0 == since,
        window_of(now, None, None, until).0.unix_nanos() == now.unix_nanos() - 24 * 60 * 60
            * 1_000_000_000,
        until matches Some(t) ==> window_of(now, None, Some(since), until).1 == t && window_of(
            now,
            None,
            None,
            until,
        ).1 == t,
        until is None ==> window_of(now, None, Some(since), until).1 == now,
{
}

/// The end that a query states is its `until`, and none where it gives a span.
pub proof fn law_span_states_no_end(span: i128, until: Option<Timestamp>)
    ensures
        end_of(Some(span), until) is None,
        end_of(None, until) == until,
{
}

proof fn lemma_zulu_concat(a: Seq<char>, b: Seq<char>)
    ensures
        zulu_spelled_out(a + b) == zulu_spelled_out(a) + zulu_spelled_out(b),
    decreases b.len(),
{
    if b.len() == 0 {
        assert(a + b =~= a);
    } else {
        assert((a + b).drop_last() =~= a + b.drop_last());
        lemma_zulu_concat(a, b.drop_last());
    }
    assert(zulu_spelled_out(a + b) =~= zulu_spelled_out(a) + zulu_spelled_out(b));
}

proof fn lemma_no_zulu(a: Seq<char>)
    requires
        !a.contains('Z'),
    ensures
        zulu_spelled_out(a) == a,
    decreases a.len(),
{
    if a.len() > 0 {
        assert(a[a.len() - 1] != 'Z');
        assert forall|i: int| 0 <= i < a.drop_last().len() implies a.drop_last()[i] != 'Z' by {
            assert(a[i] != 'Z');
        }
        lemma_no_zulu(a.drop_last());
        assert(a.drop_last().push(a.last()) =~= a);
    }
}

/// Each `Z` of a text is spelled out where it stands, and nothing else changes.
pub proof fn law_zulu_is_spelled_out(a: Seq<char>, b: Seq<char>)
    requires
        !a.contains('Z'),
    ensures
        zulu_spelled_out(a) == a,
        zulu_spelled_out(a + seq!['Z'] + b) == a + "+00:00"@ + zulu_spelled_out(b),
{
    let z = seq!['Z'];
    lemma_no_zulu(a);
    lemma_zulu_concat(a + z, b);
    lemma_zulu_concat(a, z);
    assert(z.drop_last() =~= Seq::empty());
    assert(zulu_spelled_out(z.drop_last()) =~= Seq::empty());
    assert(zulu_spelled_out(z) =~= "+00:00"@);
}

/// A parameter states the point in time that its text states by the standard, with a `Z` spelled
/// out; one that is empty or missing, or a text that states none, states none.
pub proof fn law_parameter_states_moment(text: Seq<char>)
    requires
        text.len() > 0,
    ensures
        match rfc3339_moment(zulu_spelled_out(text)) {
            Some(moment) => stated_moment(Some(text)) matches Some(t) && t.local_nanos == moment.0
                && t.offset_seconds == moment.1,
            None => stated_moment(Some(text)) is None,
        },
        stated_moment(Some(Seq::empty())) is None,
        stated_moment(None) is None,
{
}

/// A point in time is shown as the standard writes it, and as nothing where there is none or the
/// standard cannot write it.
pub proof fn law_moment_is_shown(t: Timestamp)
    ensures
        rfc3339_text(t.local_nanos, t.offset_seconds) matches Some(s) ==> iso_text(Some(t)) == s,
        rfc3339_text(t.local_nanos, t.offset_seconds) is None ==> iso_text(Some(t)).len() == 0,
        iso_text(None).len() == 0,
{
}

/// Revisions are counted by the hour in a window of at most two days, by the day up to forty-five
/// days, by the week up to two hundred and forty days, and by the month beyond.
pub proof fn law_unit_suits_window(span: int)
    ensures
        ({
            let day = 24 * 60 * 60 * 1_000_000_000int;
            &&& span <= 2 * day ==> unit_for(span) == "hour"@
            &&& 2 * day < span <= 45 * day ==> unit_for(span) == "day"@
            &&& 45 * day < span <= 240 * day + 1 ==> unit_for(span) == "week"@
            &&& 240 * day + 1 < span ==> unit_for(span) == "month"@
        }),
{
}

/// The dates that are told are those of the years from -9999 to 9999, at offsets below twenty-six
/// hours; moving back keeps the offset, and leads to a date where one is left.
pub proof fn law_dates_that_are_told(t: Timestamp, span: int)
    ensures
        t.valid() <==> (-377_705_116_800int * 1_000_000_000 <= t.local_nanos < 253_402_300_800int
            * 1_000_000_000 && -26 * 60 * 60 < t.offset_seconds < 26 * 60 * 60),
        t.can_go_back(span) ==> t.earlier(span).valid() && t.earlier(span).unix_nanos()
            == t.unix_nanos() - span && t.earlier(span).offset_seconds == t.offset_seconds,
        t.valid() && t.earlier(span).valid() && i128::MIN <= t.local_nanos - span <= i128::MAX
            ==> t.can_go_back(span),
        SECOND == 1_000_000_000,
{
}

} // verus!
