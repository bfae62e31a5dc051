//! What a page's body gained and lost over a window.
use crate::clock::{iso, iso_text, Timestamp};
use crate::decimal::{decimal, lemma_digits_round_trip};
use crate::error::{no_such_page, outcome, page_not_found, ApiError, ApiErrorView};
use crate::json::{field, items_of, put, put_text, string_array, string_items, Json, JsonView};
use crate::lines::{
    joined, law_line, law_lines_join, lines_of, stands_in, unbroken, without_end, without_last,
};
use crate::text::{chars_of, join, optional_view, same, text_of, texts};
use vstd::prelude::*;
use vstd::string::*;

verus! {

/// How many unchanged lines are shown around a change.
pub const CONTEXT: usize = 2;

/// Whether a line is in both texts or in one of them.
#[derive(Debug, Clone, Copy, PartialEq, Eq, Structural)]
pub enum Tag {
    Equal,
    Delete,
    Insert,
}

/// A line of a hunk, with its line ending.
#[derive(Debug, PartialEq, Eq)]
pub struct Change {
    pub tag: Tag,
    pub value: String,
}

/// A group of changes, with the lines around them.
#[derive(Debug, PartialEq, Eq)]
pub struct Hunk {
    pub header: String,
    pub changes: Vec<Change>,
}

/// A line of a hunk.
pub struct ChangeView {
    pub tag: Tag,
    pub value: Seq<char>,
}

/// A group of changes.
pub struct HunkView {
    pub header: Seq<char>,
    pub changes: Seq<ChangeView>,
}

impl View for Change {
    type V = ChangeView;

    open spec fn view(&self) -> ChangeView {
        ChangeView { tag: self.tag, value: self.value@ }
    }
}

impl View for Hunk {
    type V = HunkView;

    open spec fn view(&self) -> HunkView {
        HunkView { header: self.header@, changes: self.changes@.map_values(|c: Change| c@) }
    }
}

/// The hunks of a list.
pub open spec fn hunks_view(hunks: Seq<Hunk>) -> Seq<HunkView> {
    hunks.map_values(|h: Hunk| h@)
}

/// How many line ends a text holds: each carriage return and each line feed counts.
pub open spec fn line_ends(s: Seq<char>) -> nat
    decreases s.len(),
{
    if s.len() == 0 {
        0
    } else {
        line_ends(s.drop_last()) + if s.last() == '\n' || s.last() == '\r' {
            1nat
        } else {
            0nat
        }
    }
}

/// Whether the lines of two texts can be numbered by 32 bits, and twice the context by a word.
pub open spec fn comparable(before: Seq<char>, after: Seq<char>, context: usize) -> bool {
    &&& line_ends(before) + line_ends(after) + 2 <= u32::MAX
    &&& 2 * context <= usize::MAX
}

/// How many line ends a text holds.
fn count_line_ends(s: &str) -> (r: usize)
    ensures
        r == line_ends(s@),
        r <= s@.len(),
{
    let chars = chars_of(s);
    let mut n: usize = 0;
    let mut i: usize = 0;
    while i < chars.len()
        invariant
            i <= chars.len(),
            n <= i,
            n == line_ends(chars@.take(i as int)),
        decreases chars.len() - i,
    {
        proof {
            assert(chars@.take(i + 1).drop_last() =~= chars@.take(i as int));
        }
        if chars[i] == '\n' || chars[i] == '\r' {
            n += 1;
        }
        i += 1;
    }
    proof {
        assert(chars@.take(i as int) =~= chars@);
    }
    n
}

/// Whether two texts can be compared line by line with so much context.
pub fn can_compare(before: &str, after: &str, context: usize) -> (r: bool)
    ensures
        r == comparable(before@, after@, context),
{
    let a: usize = count_line_ends(before);
    let b: usize = count_line_ends(after);
    a as u128 + b as u128 + 2 <= u32::MAX as u128 && context <= usize::MAX / 2
}

/// How a header states a run of `len` lines behind the first `start` lines of a text.
pub open spec fn range_text(start: nat, len: nat) -> Seq<char> {
    if len == 1 {
        decimal(start as int + 1)
    } else if len == 0 {
        decimal(start as int) + ",0"@
    } else {
        decimal(start as int + 1) + ","@ + decimal(len as int)
    }
}

/// The header of a hunk that states a run of lines of each text.
pub open spec fn header_text(
    old_start: nat,
    old_len: nat,
    new_start: nat,
    new_len: nat,
) -> Seq<char> {
    "@@ -"@ + range_text(old_start, old_len) + " +"@ + range_text(new_start, new_len) + " @@"@
}

/// Whether a hunk has a header of the form `@@ -a,b +c,d @@` and holds a change.
pub open spec fn sound(hunk: HunkView) -> bool {
    &&& exists|old_start: nat, old_len: nat, new_start: nat, new_len: nat|
        hunk.header == #[trigger] header_text(old_start, old_len, new_start, new_len)
    &&& exists|k: int| 0 <= k < hunk.changes.len() && (#[trigger] hunk.changes[k]).tag !is Equal
}

/// Whether all hunks are sound.
pub open spec fn all_sound(hunks: Seq<HunkView>) -> bool {
    forall|i: int| 0 <= i < hunks.len() ==> sound(#[trigger] hunks[i])
}

/// The lines of a hunk that are not of the kind `tag`: without the inserted ones those of the
/// first text, without the deleted ones those of the second.
pub open spec fn lines_but(changes: Seq<ChangeView>, tag: Tag) -> Seq<Seq<char>>
    decreases changes.len(),
{
    if changes.len() == 0 {
        Seq::empty()
    } else if changes.last().tag == tag {
        lines_but(changes.drop_last(), tag)
    } else {
        lines_but(changes.drop_last(), tag).push(changes.last().value)
    }
}

/// Whether behind `gap` lines that `a` and `b` share, `a` goes on with `was` and `b` with `is`.
pub open spec fn meets_at(
    a: Seq<Seq<char>>,
    b: Seq<Seq<char>>,
    was: Seq<Seq<char>>,
    is: Seq<Seq<char>>,
    gap: int,
) -> bool {
    &&& 0 <= gap
    &&& gap + was.len() <= a.len()
    &&& gap + is.len() <= b.len()
    &&& a.take(gap) == b.take(gap)
    &&& a.subrange(gap, gap + was.len()) == was
    &&& b.subrange(gap, gap + is.len()) == is
}

/// Whether hunks turn the lines `a` into the lines `b`: each replaces a run of lines of `a` by a
/// run of lines of `b`, one behind the other, and the lines between them and around them are the
/// same in both.
pub open spec fn turns(hunks: Seq<HunkView>, a: Seq<Seq<char>>, b: Seq<Seq<char>>) -> bool
    decreases hunks.len(),
{
    if hunks.len() == 0 {
        a == b
    } else {
        let was = lines_but(hunks[0].changes, Tag::Insert);
        let is = lines_but(hunks[0].changes, Tag::Delete);
        exists|gap: int| #[trigger]
            meets_at(a, b, was, is, gap) && turns(
                hunks.drop_first(),
                a.skip(gap + was.len()),
                b.skip(gap + is.len()),
            )
    }
}

/// The hunks of the unified line diff of two texts, as the `similar` crate forms them.
pub uninterp spec fn line_hunks(before: Seq<char>, after: Seq<char>, context: usize) -> Seq<
    HunkView,
>;

/// The hunks of the unified line diff of two texts.
///
/// Calls `similar::TextDiff::from_lines` and reads the hunks of its `unified_diff`, with
/// `context` as the context radius. Claimed of them: that they depend on the two texts and on
/// `context` alone; that there are none where the texts are the same; that each has a header of
/// the form `@@ -a,b +c,d @@` and holds a changed line; that they turn the lines of the first text
/// into those of the second; and that, where `context` is no less than the number of lines of the
/// first text, there is one hunk, with all of its lines. Nothing is claimed of which numbers a
/// header states, nor of which of several diffs is found.
#[verifier::external_body]
fn diff_lines(before: &str, after: &str, context: usize) -> (r: Vec<Hunk>)
    requires
        comparable(before@, after@, context),
    ensures
        hunks_view(r@) == line_hunks(before@, after@, context),
        before@ == after@ ==> r@.len() == 0,
        all_sound(hunks_view(r@)),
        turns(hunks_view(r@), lines_of(before@), lines_of(after@)),
        before@ != after@ && lines_of(before@).len() <= context ==> r@.len() == 1 && lines_but(
            r@[0]@.changes,
            Tag::Insert,
        ) == lines_of(before@),
{
    let diff = similar::TextDiff::from_lines(before, after);
    diff.unified_diff().context_radius(context).iter_hunks().map(|hunk| Hunk {
        header: hunk.header().to_string(),
        changes: hunk.iter_changes().map(|change| Change {
            tag: match change.tag() {
                similar::ChangeTag::Equal => Tag::Equal,
                similar::ChangeTag::Delete => Tag::Delete,
                similar::ChangeTag::Insert => Tag::Insert,
            },
            value: change.value().to_owned(),
        }).collect(),
    }).collect()
}

/// The mark before a line of a diff.
pub open spec fn sign_of(tag: Tag) -> char {
    match tag {
        Tag::Equal => ' ',
        Tag::Delete => '-',
        Tag::Insert => '+',
    }
}

/// A line of a hunk as the diff shows it.
pub open spec fn change_line(change: ChangeView) -> Seq<char> {
    seq![sign_of(change.tag)] + without_end(change.value)
}

/// The lines of hunks, each hunk under its header.
pub open spec fn hunk_lines(hunks: Seq<HunkView>) -> Seq<Seq<char>>
    decreases hunks.len(),
{
    if hunks.len() == 0 {
        Seq::empty()
    } else {
        hunk_lines(hunks.drop_last()).push(hunks.last().header) + hunks.last().changes.map_values(
            |c: ChangeView| change_line(c),
        )
    }
}

/// The lines of a diff: the names of the two texts, and the hunks; nothing where there are none.
pub open spec fn diff_text(hunks: Seq<HunkView>, from: Seq<char>, to: Seq<char>) -> Seq<Seq<char>> {
    if hunks.len() == 0 {
        Seq::empty()
    } else {
        seq!["--- "@ + from, "+++ "@ + to] + hunk_lines(hunks)
    }
}

/// A line without its line ending.
fn cut_end(s: &str) -> (r: String)
    ensures
        r@ == without_end(s@),
{
    let chars = chars_of(s);
    let mut end: usize = chars.len();
    if end > 0 && chars[end - 1] == '\n' {
        end = end - 1;
    }
    proof {
        assert(chars@.subrange(0, end as int) =~= without_last(s@, '\n'));
    }
    if end > 0 && chars[end - 1] == '\r' {
        end = end - 1;
    }
    proof {
        assert(chars@.subrange(0, end as int) =~= without_end(s@));
    }
    text_of(&chars, 0, end)
}

/// The lines of a diff whose hunks are known.
pub fn render(hunks: &Vec<Hunk>, from_label: &str, to_label: &str) -> (r: Vec<String>)
    ensures
        texts(r@) == diff_text(hunks_view(hunks@), from_label@, to_label@),
{
    let mut out: Vec<String> = Vec::new();
    let ghost shown = hunks_view(hunks@);
    if hunks.len() == 0 {
        proof {
            assert(texts(out@) =~= Seq::empty());
        }
        return out;
    }
    out.push(join("--- ", from_label));
    out.push(join("+++ ", to_label));
    let ghost top = seq!["--- "@ + from_label@, "+++ "@ + to_label@];
    let mut i: usize = 0;
    proof {
        assert(texts(out@) =~= top + hunk_lines(shown.take(0)));
    }
    while i < hunks.len()
        invariant
            i <= hunks@.len(),
            shown == hunks_view(hunks@),
            texts(out@) == top + hunk_lines(shown.take(i as int)),
        decreases hunks@.len() - i,
    {
        let hunk = &hunks[i];
        let ghost changes = hunk@.changes;
        let ghost so_far = texts(out@).push(hunk.header@);
        let ghost before = out@;
        out.push(hunk.header.clone());
        let mut k: usize = 0;
        proof {
            assert(texts(out@) =~= texts(before).push(hunk.header@));
            assert(texts(out@) =~= so_far + changes.take(0).map_values(
                |c: ChangeView| change_line(c),
            ));
        }
        while k < hunk.changes.len()
            invariant
                k <= hunk.changes@.len(),
                changes == hunk@.changes,
                texts(out@) == so_far + changes.take(k as int).map_values(
                    |c: ChangeView| change_line(c),
                ),
            decreases hunk.changes@.len() - k,
        {
            let change = &hunk.changes[k];
            let ghost before = out@;
            let mut line = String::new();
            line.push(
                match change.tag {
                    Tag::Equal => ' ',
                    Tag::Delete => '-',
                    Tag::Insert => '+',
                },
            );
            line.append(cut_end(change.value.as_str()).as_str());
            proof {
                assert(changes[k as int] == change@);
                assert(line@ =~= change_line(changes[k as int]));
            }
            out.push(line);
            proof {
                assert(changes.take(k + 1) =~= changes.take(k as int).push(changes[k as int]));
                assert(changes.take(k + 1).map_values(|c: ChangeView| change_line(c))
                    =~= changes.take(k as int).map_values(|c: ChangeView| change_line(c)).push(
                    change_line(changes[k as int]),
                ));
                assert(texts(out@) =~= texts(before).push(change_line(changes[k as int])));
                assert(texts(out@) =~= so_far + changes.take(k + 1).map_values(
                    |c: ChangeView| change_line(c),
                ));
            }
            k += 1;
        }
        proof {
            assert(changes.take(k as int) =~= changes);
            assert(shown.take(i + 1).drop_last() =~= shown.take(i as int));
            assert(shown.take(i + 1).last() == hunk@);
            assert(texts(out@) =~= top + hunk_lines(shown.take(i + 1)));
        }
        i += 1;
    }
    proof {
        assert(shown.take(i as int) =~= shown);
    }
    out
}

/// Whether one hunk holds all lines of two texts.
pub open spec fn rebuilds(hunks: Seq<HunkView>, before: Seq<char>, after: Seq<char>) -> bool {
    &&& hunks.len() == 1
    &&& joined(lines_but(hunks[0].changes, Tag::Insert)) == before
    &&& joined(lines_but(hunks[0].changes, Tag::Delete)) == after
}

/// The unified diff of two texts as a list of lines without line endings: `--- from`, `+++ to`,
/// and for each hunk its header and its lines, each behind a space, a minus or a plus. It lists
/// something exactly where the texts differ; no line but the two names holds a line end; the hunks
/// turn the first text into the second; and with enough context they rebuild both.
pub fn unified_diff(
    before: &str,
    after: &str,
    from_label: &str,
    to_label: &str,
    context: usize,
) -> (r: Vec<String>)
    requires
        comparable(before@, after@, context),
    ensures
        texts(r@) == diff_text(line_hunks(before@, after@, context), from_label@, to_label@),
        r@.len() == 0 <==> before@ == after@,
        forall|i: int| 2 <= i < r@.len() ==> unbroken(#[trigger] r@[i]@),
        all_sound(line_hunks(before@, after@, context)),
        turns(line_hunks(before@, after@, context), lines_of(before@), lines_of(after@)),
        before@ != after@ && lines_of(before@).len() <= context ==> rebuilds(
            line_hunks(before@, after@, context),
            before@,
            after@,
        ),
{
    let hunks = diff_lines(before, after, context);
    let lines = render(&hunks, from_label, to_label);
    proof {
        let shown = hunks_view(hunks@);
        assert(texts(lines@).len() == lines@.len());
        if shown.len() == 0 {
            law_lines_join(before@);
            law_lines_join(after@);
        }
        law_diff_lines_are_unbroken(shown, before@, after@, from_label@, to_label@);
        assert forall|i: int| 2 <= i < lines@.len() implies unbroken(#[trigger] lines@[i]@) by {
            assert(texts(lines@)[i] == lines@[i]@);
        }
        if before@ != after@ && lines_of(before@).len() <= context {
            assert(shown[0] == hunks@[0]@);
            law_whole_hunk_rebuilds_texts(shown, before@, after@);
        }
    }
    lines
}

/// Hunks that turn one text into another are none only where the texts are the same.
pub proof fn law_no_hunk_no_change(before: Seq<char>, after: Seq<char>)
    requires
        turns(Seq::empty(), lines_of(before), lines_of(after)),
    ensures
        before == after,
{
    law_lines_join(before);
    law_lines_join(after);
}

/// Where a single hunk turns one text into another and holds all lines of the first, its unchanged
/// and deleted lines are the first text, and its unchanged and inserted lines the second.
pub proof fn law_whole_hunk_rebuilds_texts(
    hunks: Seq<HunkView>,
    before: Seq<char>,
    after: Seq<char>,
)
    requires
        turns(hunks, lines_of(before), lines_of(after)),
        hunks.len() == 1,
        lines_but(hunks[0].changes, Tag::Insert) == lines_of(before),
    ensures
        rebuilds(hunks, before, after),
{
    let a = lines_of(before);
    let b = lines_of(after);
    let was = lines_but(hunks[0].changes, Tag::Insert);
    let is = lines_but(hunks[0].changes, Tag::Delete);
    let gap = choose|gap: int| #[trigger]
        meets_at(a, b, was, is, gap) && turns(
            hunks.drop_first(),
            a.skip(gap + was.len()),
            b.skip(gap + is.len()),
        );
    assert(gap == 0);
    assert(hunks.drop_first().len() == 0);
    assert(a.skip(was.len() as int).len() == 0);
    assert(b.skip(is.len() as int).len() == 0);
    assert(is =~= b);
    law_lines_join(before);
    law_lines_join(after);
}

proof fn lemma_lines_but(changes: Seq<ChangeView>, tag: Tag, k: int)
    requires
        0 <= k < changes.len(),
        changes[k].tag != tag,
    ensures
        lines_but(changes, tag).contains(changes[k].value),
    decreases changes.len(),
{
    let all = lines_but(changes, tag);
    let rest = lines_but(changes.drop_last(), tag);
    if k == changes.len() - 1 {
        assert(all[all.len() - 1] == changes[k].value);
    } else {
        lemma_lines_but(changes.drop_last(), tag, k);
        let j = rest.index_of(changes[k].value);
        assert(all[j] == changes[k].value);
    }
}

/// The lines of hunks that turn `a` into `b` are lines of `a` and of `b`: an unchanged line of
/// both, a deleted line of the first and an inserted line of the second.
pub proof fn law_lines_come_from_texts(
    hunks: Seq<HunkView>,
    a: Seq<Seq<char>>,
    b: Seq<Seq<char>>,
    i: int,
    k: int,
)
    requires
        turns(hunks, a, b),
        0 <= i < hunks.len(),
        0 <= k < hunks[i].changes.len(),
    ensures
        hunks[i].changes[k].tag !is Insert ==> a.contains(hunks[i].changes[k].value),
        hunks[i].changes[k].tag !is Delete ==> b.contains(hunks[i].changes[k].value),
    decreases hunks.len(),
{
    let was = lines_but(hunks[0].changes, Tag::Insert);
    let is = lines_but(hunks[0].changes, Tag::Delete);
    let gap = choose|gap: int| #[trigger]
        meets_at(a, b, was, is, gap) && turns(
            hunks.drop_first(),
            a.skip(gap + was.len()),
            b.skip(gap + is.len()),
        );
    let value = hunks[i].changes[k].value;
    if i == 0 {
        if hunks[0].changes[k].tag !is Insert {
            lemma_lines_but(hunks[0].changes, Tag::Insert, k);
            let j = was.index_of(value);
            assert(a.subrange(gap, gap + was.len())[j] == a[gap + j]);
        }
        if hunks[0].changes[k].tag !is Delete {
            lemma_lines_but(hunks[0].changes, Tag::Delete, k);
            let j = is.index_of(value);
            assert(b.subrange(gap, gap + is.len())[j] == b[gap + j]);
        }
    } else {
        let rest_a = a.skip(gap + was.len());
        let rest_b = b.skip(gap + is.len());
        assert(hunks.drop_first()[i - 1] == hunks[i]);
        law_lines_come_from_texts(hunks.drop_first(), rest_a, rest_b, i - 1, k);
        if hunks[i].changes[k].tag !is Insert {
            let j = rest_a.index_of(value);
            assert(a[gap + was.len() + j] == value);
        }
        if hunks[i].changes[k].tag !is Delete {
            let j = rest_b.index_of(value);
            assert(b[gap + is.len() + j] == value);
        }
    }
}

proof fn lemma_digits_unbroken(n: nat)
    ensures
        unbroken(decimal(n as int)),
{
    lemma_digits_round_trip(n);
}

proof fn lemma_unbroken_join(a: Seq<char>, b: Seq<char>)
    requires
        unbroken(a),
        unbroken(b),
    ensures
        unbroken(a + b),
{
}

proof fn lemma_header(old_start: nat, old_len: nat, new_start: nat, new_len: nat)
    ensures
        ({
            let header = header_text(old_start, old_len, new_start, new_len);
            header.len() > 0 && header[0] == '@' && unbroken(header)
        }),
{
    reveal_strlit("@@ -");
    reveal_strlit(" +");
    reveal_strlit(" @@");
    lemma_range_unbroken(old_start, old_len);
    lemma_range_unbroken(new_start, new_len);
    let a = "@@ -"@ + range_text(old_start, old_len);
    let b = a + " +"@;
    let c = b + range_text(new_start, new_len);
    lemma_unbroken_join("@@ -"@, range_text(old_start, old_len));
    lemma_unbroken_join(a, " +"@);
    lemma_unbroken_join(b, range_text(new_start, new_len));
    lemma_unbroken_join(c, " @@"@);
}

proof fn lemma_range_unbroken(start: nat, len: nat)
    ensures
        unbroken(range_text(start, len)),
{
    reveal_strlit(",0");
    reveal_strlit(",");
    lemma_digits_unbroken(start);
    lemma_digits_unbroken(start + 1);
    lemma_digits_unbroken(len);
    lemma_unbroken_join(decimal(start as int), ",0"@);
    lemma_unbroken_join(decimal(start as int + 1), ","@);
    lemma_unbroken_join(decimal(start as int + 1) + ","@, decimal(len as int));
}

proof fn lemma_hunk_lines_unbroken(
    all: Seq<HunkView>,
    n: int,
    before: Seq<char>,
    after: Seq<char>,
    i: int,
)
    requires
        all_sound(all),
        turns(all, lines_of(before), lines_of(after)),
        0 <= n <= all.len(),
        0 <= i < hunk_lines(all.take(n)).len(),
    ensures
        unbroken(hunk_lines(all.take(n))[i]),
    decreases n,
{
    let hunks = all.take(n);
    let hunk = hunks.last();
    let first = hunk_lines(hunks.drop_last());
    assert(hunks.drop_last() =~= all.take(n - 1));
    assert(hunk == all[n - 1]);
    if i < first.len() {
        lemma_hunk_lines_unbroken(all, n - 1, before, after, i);
    } else if i == first.len() {
        assert(sound(all[n - 1]));
        let (a, b, c, d) = choose|a: nat, b: nat, c: nat, d: nat|
            hunk.header == #[trigger] header_text(a, b, c, d);
        lemma_header(a, b, c, d);
    } else {
        let k = i - first.len() - 1;
        let change = hunk.changes[k];
        law_lines_come_from_texts(all, lines_of(before), lines_of(after), n - 1, k);
        if change.tag is Insert {
            law_line(after, change.value);
        } else {
            law_line(before, change.value);
        }
        assert(hunk_lines(hunks)[i] == change_line(change));
        assert(unbroken(seq![sign_of(change.tag)]));
        lemma_unbroken_join(seq![sign_of(change.tag)], without_end(change.value));
    }
}

/// No line of a diff holds a line end, except where the names of the two texts do.
pub proof fn law_diff_lines_are_unbroken(
    hunks: Seq<HunkView>,
    before: Seq<char>,
    after: Seq<char>,
    from: Seq<char>,
    to: Seq<char>,
)
    requires
        all_sound(hunks),
        turns(hunks, lines_of(before), lines_of(after)),
    ensures
        forall|i: int|
            2 <= i < diff_text(hunks, from, to).len() ==> unbroken(
                #[trigger] diff_text(hunks, from, to)[i],
            ),
{
    let lines = diff_text(hunks, from, to);
    assert forall|i: int| 2 <= i < lines.len() implies unbroken(#[trigger] lines[i]) by {
        assert(hunks.take(hunks.len() as int) =~= hunks);
        assert(lines[i] == hunk_lines(hunks)[i - 2]);
        lemma_hunk_lines_unbroken(hunks, hunks.len() as int, before, after, i - 2);
    }
}

/// The lines of a diff behind one mark, without the mark. A line that begins with the mark three
/// times over is not among them.
pub open spec fn marked(lines: Seq<Seq<char>>, mark: char) -> Seq<Seq<char>>
    decreases lines.len(),
{
    if lines.len() == 0 {
        Seq::empty()
    } else {
        let line = lines.last();
        let others = marked(lines.drop_last(), mark);
        if seq![mark].is_prefix_of(line) && !seq![mark, mark, mark].is_prefix_of(line) {
            others.push(line.skip(1))
        } else {
            others
        }
    }
}

/// The lines of a diff behind one mark, without the mark.
pub fn lines_marked(lines: &Vec<String>, mark: char) -> (r: Vec<String>)
    ensures
        texts(r@) == marked(texts(lines@), mark),
{
    let mut out: Vec<String> = Vec::new();
    let mut i: usize = 0;
    let ghost all = texts(lines@);
    proof {
        assert(texts(out@) =~= marked(all.take(0), mark));
    }
    while i < lines.len()
        invariant
            i <= lines@.len(),
            all == texts(lines@),
            texts(out@) == marked(all.take(i as int), mark),
        decreases lines@.len() - i,
    {
        let chars = chars_of(lines[i].as_str());
        let ghost before = out@;
        let once: bool = chars.len() >= 1 && chars[0] == mark;
        let thrice: bool = chars.len() >= 3 && chars[0] == mark && chars[1] == mark && chars[2]
            == mark;
        if once && !thrice {
            out.push(text_of(&chars, 1, chars.len()));
        }
        proof {
            assert(all.take(i + 1).drop_last() =~= all.take(i as int));
            let line = all.take(i + 1).last();
            assert(line == chars@);
            assert(once == seq![mark].is_prefix_of(line)) by {
                assert(line.len() >= 1 ==> line.subrange(0, 1)[0] == line[0]);
                assert(once ==> seq![mark] =~= line.subrange(0, 1));
            }
            assert(thrice == seq![mark, mark, mark].is_prefix_of(line)) by {
                assert(line.len() >= 3 ==> line.subrange(0, 3)[0] == line[0] && line.subrange(
                    0,
                    3,
                )[1] == line[1] && line.subrange(0, 3)[2] == line[2]);
                assert(thrice ==> seq![mark, mark, mark] =~= line.subrange(0, 3));
            }
            if once && !thrice {
                assert(line.skip(1) =~= chars@.subrange(1, chars@.len() as int));
                assert(texts(out@) =~= texts(before).push(line.skip(1)));
            }
        }
        i += 1;
    }
    proof {
        assert(all.take(i as int) =~= all);
    }
    out
}

/// The lines of one kind among changes, without their line endings. A line that begins with the
/// mark of its kind twice over is not among them.
pub open spec fn listed_changes(changes: Seq<ChangeView>, tag: Tag) -> Seq<Seq<char>>
    decreases changes.len(),
{
    if changes.len() == 0 {
        Seq::empty()
    } else {
        let change = changes.last();
        let line = without_end(change.value);
        let others = listed_changes(changes.drop_last(), tag);
        if change.tag == tag && !seq![sign_of(tag), sign_of(tag)].is_prefix_of(line) {
            others.push(line)
        } else {
            others
        }
    }
}

/// The lines of one kind among hunks.
pub open spec fn listed(hunks: Seq<HunkView>, tag: Tag) -> Seq<Seq<char>>
    decreases hunks.len(),
{
    if hunks.len() == 0 {
        Seq::empty()
    } else {
        listed(hunks.drop_last(), tag) + listed_changes(hunks.last().changes, tag)
    }
}

proof fn lemma_marked_concat(a: Seq<Seq<char>>, b: Seq<Seq<char>>, mark: char)
    ensures
        marked(a + b, mark) == marked(a, mark) + marked(b, mark),
    decreases b.len(),
{
    if b.len() == 0 {
        assert(a + b =~= a);
    } else {
        assert((a + b).drop_last() =~= a + b.drop_last());
        assert((a + b).last() == b.last());
        lemma_marked_concat(a, b.drop_last(), mark);
    }
}

proof fn lemma_one_marked(line: Seq<char>, mark: char)
    ensures
        marked(seq![line], mark) == if seq![mark].is_prefix_of(line) && !seq![
            mark,
            mark,
            mark,
        ].is_prefix_of(line) {
            seq![line.skip(1)]
        } else {
            Seq::empty()
        },
{
    assert(seq![line].drop_last() =~= Seq::empty());
    assert(marked(seq![line].drop_last(), mark) =~= Seq::empty());
}

proof fn lemma_marked_changes(changes: Seq<ChangeView>, tag: Tag)
    requires
        tag !is Equal,
    ensures
        marked(changes.map_values(|c: ChangeView| change_line(c)), sign_of(tag))
            == listed_changes(changes, tag),
    decreases changes.len(),
{
    let lines = changes.map_values(|c: ChangeView| change_line(c));
    let mark = sign_of(tag);
    if changes.len() > 0 {
        let change = changes.last();
        let text = without_end(change.value);
        let line = change_line(change);
        assert(lines.drop_last() =~= changes.drop_last().map_values(
            |c: ChangeView| change_line(c),
        ));
        lemma_marked_changes(changes.drop_last(), tag);
        assert(line.skip(1) =~= text);
        assert(line.subrange(0, 1) =~= seq![sign_of(change.tag)]);
        assert(seq![mark].is_prefix_of(line) == (change.tag == tag)) by {
            assert(line.subrange(0, 1)[0] == sign_of(change.tag));
            assert(seq![mark][0] == mark);
        }
        if change.tag == tag {
            assert(seq![mark, mark, mark].is_prefix_of(line) == seq![mark, mark].is_prefix_of(
                text,
            )) by {
                if text.len() >= 2 {
                    assert(line.subrange(0, 3) =~= seq![mark] + text.subrange(0, 2));
                    if text.subrange(0, 2) =~= seq![mark, mark] {
                        assert(line.subrange(0, 3) =~= seq![mark, mark, mark]);
                    }
                    if line.subrange(0, 3) == seq![mark, mark, mark] {
                        assert(text[0] == line.subrange(0, 3)[1]);
                        assert(text[1] == line.subrange(0, 3)[2]);
                        assert(text.subrange(0, 2) =~= seq![mark, mark]);
                    }
                }
            }
        }
    }
}

proof fn lemma_header_unmarked(line: Seq<char>, mark: char)
    requires
        line.len() > 0,
        line[0] != mark,
    ensures
        marked(seq![line], mark) == Seq::<Seq<char>>::empty(),
{
    lemma_one_marked(line, mark);
    if seq![mark].is_prefix_of(line) {
        assert(line.subrange(0, 1)[0] == seq![mark][0]);
    }
}

proof fn lemma_marked_hunks(hunks: Seq<HunkView>, tag: Tag)
    requires
        tag !is Equal,
        all_sound(hunks),
    ensures
        marked(hunk_lines(hunks), sign_of(tag)) == listed(hunks, tag),
    decreases hunks.len(),
{
    if hunks.len() > 0 {
        let hunk = hunks.last();
        let first = hunk_lines(hunks.drop_last());
        let lines = hunk.changes.map_values(|c: ChangeView| change_line(c));
        let mark = sign_of(tag);
        lemma_marked_hunks(hunks.drop_last(), tag);
        assert(sound(hunks[hunks.len() - 1]));
        let (a, b, c, d) = choose|a: nat, b: nat, c: nat, d: nat|
            hunk.header == #[trigger] header_text(a, b, c, d);
        lemma_header(a, b, c, d);
        assert(first.push(hunk.header) =~= first + seq![hunk.header]);
        lemma_marked_concat(first, seq![hunk.header], mark);
        lemma_header_unmarked(hunk.header, mark);
        lemma_marked_concat(first.push(hunk.header), lines, mark);
        lemma_marked_changes(hunk.changes, tag);
        assert(marked(first, mark) + Seq::<Seq<char>>::empty() =~= marked(first, mark));
    }
}

/// The added lines of a diff are its inserted lines, and the removed lines its deleted lines, in
/// their order and without their line endings: the two names and the headers of the hunks are
/// never taken for either. Left out are the lines that begin with the mark of their kind twice
/// over.
pub proof fn law_marked_lines(
    hunks: Seq<HunkView>,
    from: Seq<char>,
    to: Seq<char>,
    tag: Tag,
)
    requires
        tag !is Equal,
        all_sound(hunks),
    ensures
        marked(diff_text(hunks, from, to), sign_of(tag)) == listed(hunks, tag),
{
    let mark = sign_of(tag);
    if hunks.len() > 0 {
        let first = "--- "@ + from;
        let second = "+++ "@ + to;
        let names = seq![first, second];
        lemma_marked_hunks(hunks, tag);
        lemma_marked_concat(names, hunk_lines(hunks), mark);
        assert(names =~= seq![first] + seq![second]);
        lemma_marked_concat(seq![first], seq![second], mark);
        reveal_strlit("--- ");
        reveal_strlit("+++ ");
        lemma_one_marked(first, mark);
        lemma_one_marked(second, mark);
        if tag is Insert {
            lemma_header_unmarked(first, mark);
            assert(second.subrange(0, 3) =~= seq!['+', '+', '+']);
        } else {
            lemma_header_unmarked(second, mark);
            assert(first.subrange(0, 3) =~= seq!['-', '-', '-']);
        }
        assert(marked(names, mark) =~= Seq::<Seq<char>>::empty());
        assert(Seq::<Seq<char>>::empty() + listed(hunks, tag) =~= listed(hunks, tag));
    }
}

proof fn lemma_listed_change(changes: Seq<ChangeView>, tag: Tag, line: Seq<char>) -> (k: int)
    requires
        listed_changes(changes, tag).contains(line),
    ensures
        0 <= k < changes.len(),
        changes[k].tag == tag,
        line == without_end(changes[k].value),
    decreases changes.len(),
{
    let last = changes.len() - 1;
    let list = listed_changes(changes, tag);
    let i = choose|i: int| 0 <= i < list.len() && list[i] == line;
    let others = listed_changes(changes.drop_last(), tag);
    if i < others.len() {
        assert(others[i] == line);
        lemma_listed_change(changes.drop_last(), tag, line)
    } else {
        last
    }
}

proof fn lemma_listed(hunks: Seq<HunkView>, tag: Tag, line: Seq<char>) -> (at: (int, int))
    requires
        listed(hunks, tag).contains(line),
    ensures
        0 <= at.0 < hunks.len(),
        0 <= at.1 < hunks[at.0].changes.len(),
        hunks[at.0].changes[at.1].tag == tag,
        line == without_end(hunks[at.0].changes[at.1].value),
    decreases hunks.len(),
{
    let list = listed(hunks, tag);
    let i = choose|i: int| 0 <= i < list.len() && list[i] == line;
    let others = listed(hunks.drop_last(), tag);
    if i < others.len() {
        assert(others[i] == line);
        lemma_listed(hunks.drop_last(), tag, line)
    } else {
        assert(listed_changes(hunks.last().changes, tag)[i - others.len()] == line);
        (hunks.len() - 1, lemma_listed_change(hunks.last().changes, tag, line))
    }
}

/// Each added line of a diff stands in the second text, and each removed line in the first.
pub proof fn law_listed_lines_stand_in_texts(
    hunks: Seq<HunkView>,
    before: Seq<char>,
    after: Seq<char>,
    tag: Tag,
    line: Seq<char>,
)
    requires
        turns(hunks, lines_of(before), lines_of(after)),
        listed(hunks, tag).contains(line),
    ensures
        stands_in(
            line,
            if tag is Insert {
                after
            } else {
                before
            },
        ),
{
    let (i, k) = lemma_listed(hunks, tag, line);
    law_lines_come_from_texts(hunks, lines_of(before), lines_of(after), i, k);
    if tag is Insert {
        law_line(after, hunks[i].changes[k].value);
    } else {
        law_line(before, hunks[i].changes[k].value);
    }
}

/// A state of a page's body.
#[derive(Debug, PartialEq, Eq)]
pub struct Revision {
    pub body: String,
    pub revised_at: Option<Timestamp>,
}

/// An optional revision behind a reference, as a value.
pub open spec fn revision(r: Option<&Revision>) -> Option<Revision> {
    match r {
        Some(x) => Some(*x),
        None => None,
    }
}

/// The body of a revision; empty where there is none.
pub open spec fn body_of(revision: Option<Revision>) -> Seq<char> {
    match revision {
        Some(r) => r.body@,
        None => Seq::empty(),
    }
}

/// When a revision was made; empty where there is none.
pub open spec fn time_of(revision: Option<Revision>) -> Seq<char> {
    match revision {
        Some(r) => iso_text(r.revised_at),
        None => Seq::empty(),
    }
}

/// The body of a revision, and when it was made.
pub open spec fn state_of(revision: Option<Revision>) -> (Seq<char>, Seq<char>) {
    (body_of(revision), time_of(revision))
}

/// The state at the end of the window, or else the latest one.
pub open spec fn after_or_latest(after: Option<Revision>, latest: Option<Revision>) -> Option<
    Revision,
> {
    match after {
        Some(r) => Some(r),
        None => latest,
    }
}

/// The name of a state of a page: its title and its time, or a word in place of the time.
pub open spec fn label(title: Seq<char>, at: Seq<char>, otherwise: Seq<char>) -> Seq<char> {
    title + " @ "@ + if at.len() == 0 {
        otherwise
    } else {
        at
    }
}

/// The lines of the diff of two states of a page; none where their bodies are the same.
pub open spec fn page_diff(
    title: Seq<char>,
    before: (Seq<char>, Seq<char>),
    after: (Seq<char>, Seq<char>),
    hunks: Seq<HunkView>,
) -> Seq<Seq<char>> {
    if before.0 == after.0 {
        Seq::empty()
    } else {
        diff_text(hunks, label(title, before.1, "start"@), label(title, after.1, "now"@))
    }
}

/// What a page gained and lost from `start` to `end`. The states are given by their bodies and
/// times, and `lines` is their diff.
pub open spec fn diff_json(
    id: Seq<char>,
    title: Seq<char>,
    start: Timestamp,
    end: Timestamp,
    had_prior: bool,
    before: (Seq<char>, Seq<char>),
    after: (Seq<char>, Seq<char>),
    lines: Seq<Seq<char>>,
) -> JsonView {
    JsonView::Object(
        map![
            "id"@ => JsonView::Str(id),
            "title"@ => JsonView::Str(title),
            "since"@ => JsonView::Str(iso_text(Some(start))),
            "until"@ => JsonView::Str(iso_text(Some(end))),
            "before_at"@ => JsonView::Str(before.1),
            "after_at"@ => JsonView::Str(after.1),
            "had_prior"@ => JsonView::Bool(had_prior),
            "changed"@ => JsonView::Bool(before.0 != after.0),
            "diff"@ => JsonView::Array(string_items(lines)),
            "added"@ => JsonView::Array(string_items(marked(lines, '+'))),
            "removed"@ => JsonView::Array(string_items(marked(lines, '-'))),
            "added_count"@ => JsonView::Int(marked(lines, '+').len() as int),
            "removed_count"@ => JsonView::Int(marked(lines, '-').len() as int),
        ],
    )
}

/// The body of a revision, and when it was made.
fn read_state(found: Option<&Revision>) -> (r: (String, String))
    ensures
        (r.0@, r.1@) == state_of(revision(found)),
{
    match found {
        Some(x) => (x.body.clone(), iso(x.revised_at)),
        None => {
            proof {
                reveal_strlit("");
                assert(""@ =~= Seq::empty());
            }
            (String::new(), String::new())
        },
    }
}

/// The name of a state of a page.
fn state_label(title: &str, at: &str, otherwise: &str) -> (r: String)
    ensures
        r@ == label(title@, at@, otherwise@),
{
    let start = join(title, " @ ");
    if at.is_empty() {
        join(start.as_str(), otherwise)
    } else {
        join(start.as_str(), at)
    }
}

/// The report on two states of a page whose diff is known.
pub fn diff_report(
    id: &str,
    title: &str,
    start: Timestamp,
    end: Timestamp,
    had_prior: bool,
    before: &(String, String),
    after: &(String, String),
    lines: &Vec<String>,
) -> (r: Json)
    ensures
        r@ == diff_json(
            id@,
            title@,
            start,
            end,
            had_prior,
            (before.0@, before.1@),
            (after.0@, after.1@),
            texts(lines@),
        ),
{
    let added = lines_marked(lines, '+');
    let removed = lines_marked(lines, '-');
    proof {
        assert(texts(added@).len() == added@.len());
        assert(texts(removed@).len() == removed@.len());
    }
    let mut fields: Vec<(String, Json)> = Vec::new();
    put_text(&mut fields, "id", id);
    put_text(&mut fields, "title", title);
    put_text(&mut fields, "since", iso(Some(start)).as_str());
    put_text(&mut fields, "until", iso(Some(end)).as_str());
    put_text(&mut fields, "before_at", before.1.as_str());
    put_text(&mut fields, "after_at", after.1.as_str());
    put(&mut fields, "had_prior", Json::Bool(had_prior));
    put(&mut fields, "changed", Json::Bool(!same(before.0.as_str(), after.0.as_str())));
    put(&mut fields, "diff", string_array(lines));
    put(&mut fields, "added", string_array(&added));
    put(&mut fields, "removed", string_array(&removed));
    put(&mut fields, "added_count", Json::Int(added.len() as i128));
    put(&mut fields, "removed_count", Json::Int(removed.len() as i128));
    Json::Object(fields)
}

/// What a page gained and lost from the state `before` to the state `after`, or the refusal where
/// there is no such page.
pub open spec fn diff_answer(
    id: Seq<char>,
    title: Option<Seq<char>>,
    start: Timestamp,
    end: Timestamp,
    before: Option<Revision>,
    after: Option<Revision>,
) -> Result<JsonView, ApiErrorView> {
    match title {
        Some(title) => {
            let was = state_of(before);
            let is = state_of(after);
            let lines = page_diff(title, was, is, line_hunks(was.0, is.0, CONTEXT));
            Ok(diff_json(id, title, start, end, before is Some, was, is, lines))
        },
        None => Err(no_such_page()),
    }
}

/// Whether the two states can be compared, where they are.
pub open spec fn states_comparable(
    title: Option<Seq<char>>,
    before: Option<Revision>,
    after: Option<Revision>,
) -> bool {
    title is Some && body_of(before) != body_of(after) ==> comparable(
        body_of(before),
        body_of(after),
        CONTEXT,
    )
}

/// What a page gained and lost from `start` to `end`. `title` is absent where there is no such
/// page; `before` and `after` are the last states no later than the start and the end of the
/// window, and `latest` is the last state of all. Lines are shown exactly where the body changed.
pub fn wiki_diff(
    id: &str,
    title: Option<&str>,
    start: Timestamp,
    end: Timestamp,
    before: Option<&Revision>,
    after: Option<&Revision>,
    latest: Option<&Revision>,
) -> (r: Result<Json, ApiError>)
    requires
        states_comparable(
            optional_view(title),
            revision(before),
            after_or_latest(revision(after), revision(latest)),
        ),
    ensures
        outcome(r) == diff_answer(
            id@,
            optional_view(title),
            start,
            end,
            revision(before),
            after_or_latest(revision(after), revision(latest)),
        ),
        title is Some ==> {
            let was = state_of(revision(before));
            let is = state_of(after_or_latest(revision(after), revision(latest)));
            let hunks = line_hunks(was.0, is.0, CONTEXT);
            &&& page_diff(title->0@, was, is, hunks).len() == 0 <==> was.0 == is.0
            &&& was.0 != is.0 ==> all_sound(hunks) && turns(
                hunks,
                lines_of(was.0),
                lines_of(is.0),
            )
        },
        title is Some ==> {
            let was = body_of(revision(before));
            let is = body_of(after_or_latest(revision(after), revision(latest)));
            let hunks = line_hunks(was, is, CONTEXT);
            let added = if was == is {
                Seq::empty()
            } else {
                listed(hunks, Tag::Insert)
            };
            let removed = if was == is {
                Seq::empty()
            } else {
                listed(hunks, Tag::Delete)
            };
            &&& answered(outcome(r), "added"@) == Some(JsonView::Array(string_items(added)))
            &&& answered(outcome(r), "removed"@) == Some(JsonView::Array(string_items(removed)))
            &&& answered(outcome(r), "added_count"@) == Some(JsonView::Int(added.len() as int))
            &&& answered(outcome(r), "removed_count"@) == Some(
                JsonView::Int(removed.len() as int),
            )
            &&& was.len() == 0 ==> answered(outcome(r), "added"@) == Some(
                JsonView::Array(string_items(plain_lines(lines_of(is), '+'))),
            )
            &&& is.len() == 0 ==> answered(outcome(r), "removed"@) == Some(
                JsonView::Array(string_items(plain_lines(lines_of(was), '-'))),
            )
        },
{
    let title = match title {
        Some(title) => title,
        None => {
            return Err(page_not_found());
        },
    };
    let was = read_state(before);
    let is = read_state(
        match after {
            Some(revision) => Some(revision),
            None => latest,
        },
    );
    let from_label = state_label(title, was.1.as_str(), "start");
    let to_label = state_label(title, is.1.as_str(), "now");
    let lines: Vec<String> = if same(was.0.as_str(), is.0.as_str()) {
        Vec::new()
    } else {
        unified_diff(
            was.0.as_str(),
            is.0.as_str(),
            from_label.as_str(),
            to_label.as_str(),
            CONTEXT,
        )
    };
    proof {
        assert(texts(lines@).len() == lines@.len());
        assert(was.0@ == is.0@ ==> texts(lines@) =~= Seq::empty());
        let before_state = (was.0@, was.1@);
        let after_state = (is.0@, is.1@);
        let prior = before is Some;
        lemma_report_fields(
            id@,
            title@,
            start,
            end,
            prior,
            before_state,
            after_state,
            texts(lines@),
        );
        let hunks = line_hunks(was.0@, is.0@, CONTEXT);
        if was.0@ != is.0@ {
            law_report_lists_changes(
                id@,
                title@,
                start,
                end,
                prior,
                before_state,
                after_state,
                hunks,
            );
            law_whole_page_is_listed(
                id@,
                title@,
                start,
                end,
                prior,
                before_state,
                after_state,
                hunks,
            );
        } else {
            assert(marked(texts(lines@), '+') =~= Seq::empty());
            assert(marked(texts(lines@), '-') =~= Seq::empty());
            assert(was.0@.len() == 0 ==> plain_lines(lines_of(is.0@), '+') =~= Seq::empty());
            assert(is.0@.len() == 0 ==> plain_lines(lines_of(was.0@), '-') =~= Seq::empty());
        }
    }
    Ok(diff_report(id, title, start, end, before.is_some(), &was, &is, &lines))
}

// What a report says.

/// The field `name` of a report that is an answer.
pub open spec fn answered(r: Result<JsonView, ApiErrorView>, name: Seq<char>) -> Option<JsonView> {
    match r {
        Ok(json) => field(json, name),
        Err(_) => None,
    }
}

proof fn lemma_report_fields(
    id: Seq<char>,
    title: Seq<char>,
    start: Timestamp,
    end: Timestamp,
    had_prior: bool,
    before: (Seq<char>, Seq<char>),
    after: (Seq<char>, Seq<char>),
    lines: Seq<Seq<char>>,
)
    ensures
        ({
            let r = diff_json(id, title, start, end, had_prior, before, after, lines);
            let added = marked(lines, '+');
            let removed = marked(lines, '-');
            &&& field(r, "id"@) == Some(JsonView::Str(id))
            &&& field(r, "title"@) == Some(JsonView::Str(title))
            &&& field(r, "since"@) == Some(JsonView::Str(iso_text(Some(start))))
            &&& field(r, "until"@) == Some(JsonView::Str(iso_text(Some(end))))
            &&& field(r, "before_at"@) == Some(JsonView::Str(before.1))
            &&& field(r, "after_at"@) == Some(JsonView::Str(after.1))
            &&& field(r, "had_prior"@) == Some(JsonView::Bool(had_prior))
            &&& field(r, "changed"@) == Some(JsonView::Bool(before.0 != after.0))
            &&& field(r, "diff"@) == Some(JsonView::Array(string_items(lines)))
            &&& field(r, "added"@) == Some(JsonView::Array(string_items(added)))
            &&& field(r, "removed"@) == Some(JsonView::Array(string_items(removed)))
            &&& field(r, "added_count"@) == Some(JsonView::Int(added.len() as int))
            &&& field(r, "removed_count"@) == Some(JsonView::Int(removed.len() as int))
        }),
{
    reveal_strlit("id");
    reveal_strlit("title");
    reveal_strlit("since");
    reveal_strlit("until");
    reveal_strlit("before_at");
    reveal_strlit("after_at");
    reveal_strlit("had_prior");
    reveal_strlit("changed");
    reveal_strlit("diff");
    reveal_strlit("added");
    reveal_strlit("removed");
    reveal_strlit("added_count");
    reveal_strlit("removed_count");
    assert("id"@.len() == 2);
    assert("title"@.len() == 5);
    assert("since"@.len() == 5);
    assert("until"@.len() == 5);
    assert("before_at"@.len() == 9);
    assert("after_at"@.len() == 8);
    assert("had_prior"@.len() == 9);
    assert("changed"@.len() == 7);
    assert("diff"@.len() == 4);
    assert("added"@.len() == 5);
    assert("removed"@.len() == 7);
    assert("added_count"@.len() == 11);
    assert("removed_count"@.len() == 13);
    assert("title"@[0] == 't');
    assert("since"@[0] == 's');
    assert("until"@[0] == 'u');
    assert("added"@[0] == 'a');
    assert("before_at"@[0] == 'b');
    assert("had_prior"@[0] == 'h');
    assert("changed"@[0] == 'c');
    assert("removed"@[0] == 'r');
}

/// What a report lists as added are the inserted lines of its hunks, and as removed the deleted
/// ones, without their line endings and in their order, and both are counted; lines that begin with
/// the mark of their kind twice over are left out. This holds of every two states that differ, an
/// empty or missing one included; where they do not differ, nothing is listed.
pub proof fn law_report_lists_changes(
    id: Seq<char>,
    title: Seq<char>,
    start: Timestamp,
    end: Timestamp,
    had_prior: bool,
    before: (Seq<char>, Seq<char>),
    after: (Seq<char>, Seq<char>),
    hunks: Seq<HunkView>,
)
    requires
        all_sound(hunks),
    ensures
        ({
            let lines = page_diff(title, before, after, hunks);
            let r = diff_json(id, title, start, end, had_prior, before, after, lines);
            let added = listed(hunks, Tag::Insert);
            let removed = listed(hunks, Tag::Delete);
            &&& before.0 != after.0 ==> {
                &&& field(r, "changed"@) == Some(JsonView::Bool(true))
                &&& field(r, "added"@) == Some(JsonView::Array(string_items(added)))
                &&& field(r, "removed"@) == Some(JsonView::Array(string_items(removed)))
                &&& field(r, "added_count"@) == Some(JsonView::Int(added.len() as int))
                &&& field(r, "removed_count"@) == Some(JsonView::Int(removed.len() as int))
            }
            &&& before.0 == after.0 ==> {
                &&& field(r, "changed"@) == Some(JsonView::Bool(false))
                &&& items_of(field(r, "diff"@)).len() == 0
                &&& items_of(field(r, "added"@)).len() == 0
                &&& items_of(field(r, "removed"@)).len() == 0
                &&& field(r, "added_count"@) == Some(JsonView::Int(0))
                &&& field(r, "removed_count"@) == Some(JsonView::Int(0))
            }
        }),
{
    let lines = page_diff(title, before, after, hunks);
    lemma_report_fields(id, title, start, end, had_prior, before, after, lines);
    let from = label(title, before.1, "start"@);
    let to = label(title, after.1, "now"@);
    law_marked_lines(hunks, from, to, Tag::Insert);
    law_marked_lines(hunks, from, to, Tag::Delete);
}

/// Lines without their endings, but for those that begin with a mark twice over.
pub open spec fn plain_lines(lines: Seq<Seq<char>>, mark: char) -> Seq<Seq<char>>
    decreases lines.len(),
{
    if lines.len() == 0 {
        Seq::empty()
    } else {
        let line = without_end(lines.last());
        let others = plain_lines(lines.drop_last(), mark);
        if seq![mark, mark].is_prefix_of(line) {
            others
        } else {
            others.push(line)
        }
    }
}

proof fn lemma_plain_concat(a: Seq<Seq<char>>, b: Seq<Seq<char>>, mark: char)
    ensures
        plain_lines(a + b, mark) == plain_lines(a, mark) + plain_lines(b, mark),
    decreases b.len(),
{
    if b.len() == 0 {
        assert(a + b =~= a);
        assert(plain_lines(a + b, mark) =~= plain_lines(a, mark) + plain_lines(b, mark));
    } else {
        assert((a + b).drop_last() =~= a + b.drop_last());
        lemma_plain_concat(a, b.drop_last(), mark);
        assert(plain_lines(a + b, mark) =~= plain_lines(a, mark) + plain_lines(b, mark));
    }
}

proof fn lemma_one_kind(changes: Seq<ChangeView>, tag: Tag, other: Tag)
    requires
        tag !is Equal,
        tag != other,
        forall|k: int| 0 <= k < changes.len() ==> (#[trigger] changes[k]).tag == tag,
    ensures
        listed_changes(changes, tag) == plain_lines(lines_but(changes, other), sign_of(tag)),
        listed_changes(changes, other).len() == 0,
    decreases changes.len(),
{
    if changes.len() > 0 {
        let less = changes.drop_last();
        assert forall|k: int| 0 <= k < less.len() implies (#[trigger] less[k]).tag == tag by {
            assert(less[k] == changes[k]);
        }
        lemma_one_kind(less, tag, other);
        assert(changes[changes.len() - 1].tag == tag);
        let all = lines_but(changes, other);
        assert(all.drop_last() =~= lines_but(less, other));
        assert(all.last() == changes.last().value);
    } else {
        assert(listed_changes(changes, tag) =~= plain_lines(
            lines_but(changes, other),
            sign_of(tag),
        ));
    }
}

proof fn lemma_listed_first(hunks: Seq<HunkView>, tag: Tag)
    requires
        hunks.len() > 0,
    ensures
        listed(hunks, tag) == listed_changes(hunks[0].changes, tag) + listed(
            hunks.drop_first(),
            tag,
        ),
    decreases hunks.len(),
{
    let rest = hunks.drop_first();
    if hunks.len() == 1 {
        assert(hunks.drop_last() =~= Seq::empty());
        assert(rest =~= Seq::empty());
        assert(listed(hunks, tag) =~= listed_changes(hunks[0].changes, tag) + listed(rest, tag));
    } else {
        lemma_listed_first(hunks.drop_last(), tag);
        assert(hunks.drop_last().drop_first() =~= rest.drop_last());
        assert(listed(hunks, tag) =~= listed_changes(hunks[0].changes, tag) + listed(rest, tag));
    }
}

proof fn lemma_one_sided(
    hunks: Seq<HunkView>,
    a: Seq<Seq<char>>,
    b: Seq<Seq<char>>,
    tag: Tag,
    other: Tag,
)
    requires
        turns(hunks, a, b),
        (tag is Insert && other is Delete && a.len() == 0) || (tag is Delete && other is Insert
            && b.len() == 0),
    ensures
        listed(hunks, tag) == plain_lines(
            if tag is Insert {
                b
            } else {
                a
            },
            sign_of(tag),
        ),
        listed(hunks, other).len() == 0,
    decreases hunks.len(),
{
    let full = if tag is Insert {
        b
    } else {
        a
    };
    if hunks.len() == 0 {
        assert(listed(hunks, tag) =~= plain_lines(full, sign_of(tag)));
    } else {
        let changes = hunks[0].changes;
        let was = lines_but(changes, Tag::Insert);
        let is = lines_but(changes, Tag::Delete);
        let gap = choose|gap: int| #[trigger]
            meets_at(a, b, was, is, gap) && turns(
                hunks.drop_first(),
                a.skip(gap + was.len()),
                b.skip(gap + is.len()),
            );
        assert(gap == 0);
        assert forall|k: int| 0 <= k < changes.len() implies (#[trigger] changes[k]).tag
            == tag by {
            if changes[k].tag != tag {
                lemma_lines_but(changes, tag, k);
            }
        }
        lemma_one_kind(changes, tag, other);
        lemma_one_sided(
            hunks.drop_first(),
            a.skip(gap + was.len()),
            b.skip(gap + is.len()),
            tag,
            other,
        );
        lemma_listed_first(hunks, tag);
        lemma_listed_first(hunks, other);
        let first = lines_but(changes, other);
        let rest = full.skip(first.len() as int);
        assert(full =~= first + rest) by {
            assert(full.subrange(0, first.len() as int) =~= first);
        }
        lemma_plain_concat(first, rest, sign_of(tag));
    }
}

/// A page that was empty or missing at the start is reported to have gained every line that it has,
/// and a page that became empty to have lost every line that it had: all but the lines that begin
/// with the mark of their kind twice over, in their order.
pub proof fn law_whole_page_is_listed(
    id: Seq<char>,
    title: Seq<char>,
    start: Timestamp,
    end: Timestamp,
    had_prior: bool,
    before: (Seq<char>, Seq<char>),
    after: (Seq<char>, Seq<char>),
    hunks: Seq<HunkView>,
)
    requires
        all_sound(hunks),
        turns(hunks, lines_of(before.0), lines_of(after.0)),
        before.0 != after.0,
    ensures
        ({
            let lines = page_diff(title, before, after, hunks);
            let r = diff_json(id, title, start, end, had_prior, before, after, lines);
            &&& before.0.len() == 0 ==> {
                let gained = plain_lines(lines_of(after.0), '+');
                &&& field(r, "added"@) == Some(JsonView::Array(string_items(gained)))
                &&& field(r, "added_count"@) == Some(JsonView::Int(gained.len() as int))
                &&& field(r, "removed_count"@) == Some(JsonView::Int(0))
            }
            &&& after.0.len() == 0 ==> {
                let lost = plain_lines(lines_of(before.0), '-');
                &&& field(r, "removed"@) == Some(JsonView::Array(string_items(lost)))
                &&& field(r, "removed_count"@) == Some(JsonView::Int(lost.len() as int))
                &&& field(r, "added_count"@) == Some(JsonView::Int(0))
            }
        }),
{
    law_report_lists_changes(id, title, start, end, had_prior, before, after, hunks);
    if before.0.len() == 0 {
        lemma_one_sided(
            hunks,
            lines_of(before.0),
            lines_of(after.0),
            Tag::Insert,
            Tag::Delete,
        );
    }
    if after.0.len() == 0 {
        lemma_one_sided(
            hunks,
            lines_of(before.0),
            lines_of(after.0),
            Tag::Delete,
            Tag::Insert,
        );
    }
}

/// Each line of a text that does not begin with a mark twice over is among its plain lines.
pub proof fn law_plain_lines(lines: Seq<Seq<char>>, mark: char, k: int)
    requires
        0 <= k < lines.len(),
        !seq![mark, mark].is_prefix_of(without_end(lines[k])),
    ensures
        plain_lines(lines, mark).contains(without_end(lines[k])),
    decreases lines.len(),
{
    let all = plain_lines(lines, mark);
    let others = plain_lines(lines.drop_last(), mark);
    if k == lines.len() - 1 {
        assert(all[all.len() - 1] == without_end(lines[k]));
    } else {
        law_plain_lines(lines.drop_last(), mark, k);
        assert(all[others.index_of(without_end(lines[k]))] == without_end(lines[k]));
    }
}

/// How many changes are of a kind.
pub open spec fn changes_of(hunks: Seq<HunkView>, tag: Tag) -> nat
    decreases hunks.len(),
{
    if hunks.len() == 0 {
        0
    } else {
        changes_of(hunks.drop_first(), tag) + hunks[0].changes.filter(
            |c: ChangeView| c.tag == tag,
        ).len()
    }
}

proof fn lemma_lines_but_len(changes: Seq<ChangeView>)
    ensures
        lines_but(changes, Tag::Insert).len() + changes.filter(
            |c: ChangeView| c.tag == Tag::Insert,
        ).len() == changes.len(),
        lines_but(changes, Tag::Delete).len() + changes.filter(
            |c: ChangeView| c.tag == Tag::Delete,
        ).len() == changes.len(),
    decreases changes.len(),
{
    reveal(Seq::filter);
    if changes.len() > 0 {
        lemma_lines_but_len(changes.drop_last());
    }
}

/// A diff accounts for every line: the lines of the first text and the inserted ones are as many as
/// the lines of the second text and the deleted ones.
pub proof fn law_lines_add_up(hunks: Seq<HunkView>, a: Seq<Seq<char>>, b: Seq<Seq<char>>)
    requires
        turns(hunks, a, b),
    ensures
        a.len() + changes_of(hunks, Tag::Insert) == b.len() + changes_of(hunks, Tag::Delete),
    decreases hunks.len(),
{
    if hunks.len() > 0 {
        let was = lines_but(hunks[0].changes, Tag::Insert);
        let is = lines_but(hunks[0].changes, Tag::Delete);
        let gap = choose|gap: int| #[trigger]
            meets_at(a, b, was, is, gap) && turns(
                hunks.drop_first(),
                a.skip(gap + was.len()),
                b.skip(gap + is.len()),
            );
        lemma_lines_but_len(hunks[0].changes);
        law_lines_add_up(hunks.drop_first(), a.skip(gap + was.len()), b.skip(gap + is.len()));
    }
}

/// A hunk is shown as its header and its lines, each behind a space where it is in both texts,
/// behind a minus where it is in the first alone and behind a plus where it is in the second alone.
pub proof fn law_hunk_is_shown(hunks: Seq<HunkView>, hunk: HunkView, k: int)
    ensures
        ({
            let before = hunk_lines(hunks);
            let all = hunk_lines(hunks.push(hunk));
            &&& all.len() == before.len() + 1 + hunk.changes.len()
            &&& all.take(before.len() as int) == before
            &&& all[before.len() as int] == hunk.header
            &&& 0 <= k < hunk.changes.len() ==> {
                let line = all[before.len() + 1 + k];
                &&& line.len() > 0
                &&& line.skip(1) == without_end(hunk.changes[k].value)
                &&& hunk.changes[k].tag is Equal ==> line[0] == ' '
                &&& hunk.changes[k].tag is Delete ==> line[0] == '-'
                &&& hunk.changes[k].tag is Insert ==> line[0] == '+'
            }
        }),
{
    let before = hunk_lines(hunks);
    let all = hunk_lines(hunks.push(hunk));
    assert(hunks.push(hunk).drop_last() =~= hunks);
    assert(all.take(before.len() as int) =~= before);
    if 0 <= k < hunk.changes.len() {
        let line = all[before.len() + 1 + k];
        assert(line == change_line(hunk.changes[k]));
        assert(line.skip(1) =~= without_end(hunk.changes[k].value));
    }
}

/// The diff of two states of a page begins with the name of the first behind `--- ` and that of the
/// second behind `+++ `: the title, and the time of the state, or `start` and `now` where it has
/// none. The lines of the hunks follow, and there is no diff without hunks.
pub proof fn law_diff_names_states(
    title: Seq<char>,
    before: (Seq<char>, Seq<char>),
    after: (Seq<char>, Seq<char>),
    hunks: Seq<HunkView>,
)
    requires
        before.0 != after.0,
    ensures
        hunks.len() == 0 ==> page_diff(title, before, after, hunks).len() == 0,
        hunks.len() > 0 ==> {
            let lines = page_diff(title, before, after, hunks);
            &&& lines.len() == 2 + hunk_lines(hunks).len()
            &&& before.1.len() > 0 ==> lines[0] == "--- "@ + (title + " @ "@ + before.1)
            &&& before.1.len() == 0 ==> lines[0] == "--- "@ + (title + " @ "@ + "start"@)
            &&& after.1.len() > 0 ==> lines[1] == "+++ "@ + (title + " @ "@ + after.1)
            &&& after.1.len() == 0 ==> lines[1] == "+++ "@ + (title + " @ "@ + "now"@)
            &&& lines.skip(2) == hunk_lines(hunks)
        },
{
    if hunks.len() > 0 {
        let lines = page_diff(title, before, after, hunks);
        assert(lines.skip(2) =~= hunk_lines(hunks));
    }
}

/// What a report on a page says besides its lines: which page and which window it is about, when
/// its two states were made, whether there was a first one, and whether the bodies differ. A page
/// that does not exist has no report.
pub proof fn law_report_tells_of_states(
    id: Seq<char>,
    title: Seq<char>,
    start: Timestamp,
    end: Timestamp,
    before: Option<Revision>,
    after: Option<Revision>,
)
    ensures
        ({
            let r = diff_answer(id, Some(title), start, end, before, after);
            &&& r is Ok
            &&& answered(r, "id"@) == Some(JsonView::Str(id))
            &&& answered(r, "title"@) == Some(JsonView::Str(title))
            &&& answered(r, "since"@) == Some(JsonView::Str(iso_text(Some(start))))
            &&& answered(r, "until"@) == Some(JsonView::Str(iso_text(Some(end))))
            &&& before matches Some(s) ==> {
                &&& answered(r, "before_at"@) == Some(JsonView::Str(iso_text(s.revised_at)))
                &&& answered(r, "had_prior"@) == Some(JsonView::Bool(true))
            }
            &&& before is None ==> {
                &&& answered(r, "before_at"@) == Some(JsonView::Str(Seq::empty()))
                &&& answered(r, "had_prior"@) == Some(JsonView::Bool(false))
            }
            &&& after matches Some(s) ==> answered(r, "after_at"@) == Some(
                JsonView::Str(iso_text(s.revised_at)),
            )
            &&& after is None ==> answered(r, "after_at"@) == Some(JsonView::Str(Seq::empty()))
            &&& answered(r, "changed"@) == Some(
                JsonView::Bool(
                    match (before, after) {
                        (Some(s), Some(t)) => s.body@ != t.body@,
                        (Some(s), None) => s.body@.len() > 0,
                        (None, Some(t)) => t.body@.len() > 0,
                        (None, None) => false,
                    },
                ),
            )
        }),
        diff_answer(id, None, start, end, before, after) == Err::<JsonView, ApiErrorView>(
            ApiErrorView::NotFound("wiki page not found"@),
        ),
{
    let was = state_of(before);
    let is = state_of(after);
    let lines = page_diff(title, was, is, line_hunks(was.0, is.0, CONTEXT));
    lemma_report_fields(id, title, start, end, before is Some, was, is, lines);
    if let Some(t) = after {
        if before is None && t.body@.len() == 0 {
            assert(t.body@ =~= Seq::empty());
        }
    }
    if let Some(s) = before {
        if after is None && s.body@.len() == 0 {
            assert(s.body@ =~= Seq::empty());
        }
    }
}

/// The state at the end of the window is the one that is compared, and the latest one only where
/// there is none.
pub proof fn law_latest_stands_in(after: Option<Revision>, latest: Option<Revision>)
    ensures
        after is Some ==> after_or_latest(after, latest) == after,
        after is None ==> after_or_latest(after, latest) == latest,
{
}

/// The report on two states shows the lines of their diff, with two unchanged lines around each
/// change.
pub proof fn law_report_shows_diff(
    id: Seq<char>,
    title: Seq<char>,
    start: Timestamp,
    end: Timestamp,
    before: Option<Revision>,
    after: Option<Revision>,
)
    ensures
        ({
            let r = diff_answer(id, Some(title), start, end, before, after);
            let was = body_of(before);
            let is = body_of(after);
            let hunks = line_hunks(was, is, 2);
            &&& was != is ==> answered(r, "diff"@) == Some(
                JsonView::Array(
                    string_items(
                        diff_text(
                            hunks,
                            label(title, time_of(before), "start"@),
                            label(title, time_of(after), "now"@),
                        ),
                    ),
                ),
            )
            &&& was == is ==> answered(r, "diff"@) == Some(JsonView::Array(Seq::empty()))
        }),
{
    let was = state_of(before);
    let is = state_of(after);
    let lines = page_diff(title, was, is, line_hunks(was.0, is.0, CONTEXT));
    lemma_report_fields(id, title, start, end, before is Some, was, is, lines);
    if was.0 == is.0 {
        assert(string_items(lines) =~= Seq::empty());
    }
}

/// The lines of a diff are the names of its two texts behind their marks and the lines of its
/// hunks, and there are none without hunks.
pub proof fn law_diff_begins_with_names(hunks: Seq<HunkView>, from: Seq<char>, to: Seq<char>)
    ensures
        hunks.len() == 0 ==> diff_text(hunks, from, to).len() == 0,
        hunks.len() > 0 ==> {
            let lines = diff_text(hunks, from, to);
            &&& lines.len() == 2 + hunk_lines(hunks).len()
            &&& lines[0] == "--- "@ + from
            &&& lines[1] == "+++ "@ + to
            &&& lines.skip(2) == hunk_lines(hunks)
        },
        hunk_lines(Seq::empty()).len() == 0,
{
    if hunks.len() > 0 {
        assert(diff_text(hunks, from, to).skip(2) =~= hunk_lines(hunks));
    }
}

/// Two texts can be compared wherever their line ends, with two more, can be numbered by 32 bits and
/// twice the context by a word; each carriage return and each line feed counts.
pub proof fn law_what_can_be_compared(a: Seq<char>, b: Seq<char>, c: char, context: usize)
    ensures
        line_ends(a + b) == line_ends(a) + line_ends(b),
        line_ends(seq![c]) == if c == '\n' || c == '\r' {
            1nat
        } else {
            0
        },
        line_ends(Seq::empty()) == 0,
        line_ends(a) + line_ends(b) + 2 <= 0xffff_ffff && context <= 0x7fff_ffff ==> comparable(
            a,
            b,
            context,
        ),
    decreases b.len(),
{
    assert(seq![c].drop_last() =~= Seq::empty());
    assert(line_ends(seq![c].drop_last()) == 0);
    if b.len() == 0 {
        assert(a + b =~= a);
    } else {
        assert((a + b).drop_last() =~= a + b.drop_last());
        law_what_can_be_compared(a, b.drop_last(), c, context);
    }
}

/// The state of a page's body that is there is its body and its time, and one that is not there is
/// empty.
pub proof fn law_state_is_its_revision(r: Revision)
    ensures
        state_of(Some(r)) == (r.body@, iso_text(r.revised_at)),
        body_of(None).len() == 0,
        time_of(None).len() == 0,
        state_of(None) == (Seq::<char>::empty(), Seq::<char>::empty()),
        revision(Some(&r)) == Some(r),
        revision(None) is None,
{
}

/// Hunks and changes, by what they hold.
pub proof fn law_hunk_is_its_changes(change: Change, hunk: Hunk, hunks: Seq<Hunk>, i: int)
    ensures
        change@.tag == change.tag,
        change@.value == change.value@,
        hunk@.header == hunk.header@,
        hunk@.changes.len() == hunk.changes@.len(),
        0 <= i < hunk.changes@.len() ==> hunk@.changes[i] == hunk.changes@[i]@,
        hunks_view(hunks).len() == hunks.len(),
        0 <= i < hunks.len() ==> hunks_view(hunks)[i] == hunks[i]@,
{
}

proof fn lemma_change_of_line(changes: Seq<ChangeView>, without: Tag, x: Seq<char>) -> (k: int)
    requires
        lines_but(changes, without).contains(x),
    ensures
        0 <= k < changes.len(),
        changes[k].tag != without,
        changes[k].value == x,
    decreases changes.len(),
{
    let lines = lines_but(changes, without);
    let rest = lines_but(changes.drop_last(), without);
    let p = lines.index_of(x);
    if changes.last().tag != without && p == rest.len() {
        changes.len() - 1
    } else {
        assert(rest[p] == x);
        lemma_change_of_line(changes.drop_last(), without, x)
    }
}

proof fn lemma_line_of_change(changes: Seq<ChangeView>, without: Tag, k: int)
    requires
        0 <= k < changes.len(),
        changes[k].tag != without,
    ensures
        lines_but(changes, without).contains(changes[k].value),
    decreases changes.len(),
{
    let lines = lines_but(changes, without);
    let rest = lines_but(changes.drop_last(), without);
    if k == changes.len() - 1 {
        assert(lines[rest.len() as int] == changes[k].value);
    } else {
        lemma_line_of_change(changes.drop_last(), without, k);
        let p = rest.index_of(changes[k].value);
        assert(lines[p] == changes[k].value);
    }
}

/// Whether a hunk holds a line as a change of the kind `tag`.
pub open spec fn holds(hunk: HunkView, tag: Tag, x: Seq<char>) -> bool {
    exists|k: int|
        0 <= k < hunk.changes.len() && (#[trigger] hunk.changes[k]).tag == tag
            && hunk.changes[k].value == x
}

/// A line that only the second of two texts has is one that the hunks between them insert.
pub proof fn law_new_line_is_inserted(
    hunks: Seq<HunkView>,
    a: Seq<Seq<char>>,
    b: Seq<Seq<char>>,
    x: Seq<char>,
)
    requires
        turns(hunks, a, b),
        b.contains(x),
        !a.contains(x),
    ensures
        exists|h: int| 0 <= h < hunks.len() && holds(#[trigger] hunks[h], Tag::Insert, x),
    decreases hunks.len(),
{
    let was = lines_but(hunks[0].changes, Tag::Insert);
    let is = lines_but(hunks[0].changes, Tag::Delete);
    let gap = choose|gap: int| #[trigger]
        meets_at(a, b, was, is, gap) && turns(
            hunks.drop_first(),
            a.skip(gap + was.len()),
            b.skip(gap + is.len()),
        );
    let p = b.index_of(x);
    if p < gap {
        assert(a.take(gap)[p] == b.take(gap)[p]);
        assert(a[p] == x);
    } else if p < gap + is.len() {
        assert(b.subrange(gap, gap + is.len())[p - gap] == x);
        assert(is[p - gap] == x);
        let k = lemma_change_of_line(hunks[0].changes, Tag::Delete, x);
        if hunks[0].changes[k].tag is Equal {
            lemma_line_of_change(hunks[0].changes, Tag::Insert, k);
            let q = was.index_of(x);
            assert(a.subrange(gap, gap + was.len())[q] == x);
            assert(a[gap + q] == x);
        }
        assert(holds(hunks[0], Tag::Insert, x));
    } else {
        let rest = a.skip(gap + was.len());
        assert(b.skip(gap + is.len())[p - gap - is.len()] == x);
        if rest.contains(x) {
            let q = rest.index_of(x);
            assert(a[gap + was.len() + q] == x);
        }
        law_new_line_is_inserted(hunks.drop_first(), rest, b.skip(gap + is.len()), x);
        let h = choose|h: int|
            0 <= h < hunks.drop_first().len() && holds(
                #[trigger] hunks.drop_first()[h],
                Tag::Insert,
                x,
            );
        assert(hunks[h + 1] == hunks.drop_first()[h]);
    }
}

/// A line that only the first of two texts has is one that the hunks between them delete.
pub proof fn law_lost_line_is_deleted(
    hunks: Seq<HunkView>,
    a: Seq<Seq<char>>,
    b: Seq<Seq<char>>,
    x: Seq<char>,
)
    requires
        turns(hunks, a, b),
        a.contains(x),
        !b.contains(x),
    ensures
        exists|h: int| 0 <= h < hunks.len() && holds(#[trigger] hunks[h], Tag::Delete, x),
    decreases hunks.len(),
{
    let was = lines_but(hunks[0].changes, Tag::Insert);
    let is = lines_but(hunks[0].changes, Tag::Delete);
    let gap = choose|gap: int| #[trigger]
        meets_at(a, b, was, is, gap) && turns(
            hunks.drop_first(),
            a.skip(gap + was.len()),
            b.skip(gap + is.len()),
        );
    let p = a.index_of(x);
    if p < gap {
        assert(b.take(gap)[p] == a.take(gap)[p]);
        assert(b[p] == x);
    } else if p < gap + was.len() {
        assert(a.subrange(gap, gap + was.len())[p - gap] == x);
        assert(was[p - gap] == x);
        let k = lemma_change_of_line(hunks[0].changes, Tag::Insert, x);
        if hunks[0].changes[k].tag is Equal {
            lemma_line_of_change(hunks[0].changes, Tag::Delete, k);
            let q = is.index_of(x);
            assert(b.subrange(gap, gap + is.len())[q] == x);
            assert(b[gap + q] == x);
        }
        assert(holds(hunks[0], Tag::Delete, x));
    } else {
        let rest = b.skip(gap + is.len());
        assert(a.skip(gap + was.len())[p - gap - was.len()] == x);
        if rest.contains(x) {
            let q = rest.index_of(x);
            assert(b[gap + is.len() + q] == x);
        }
        law_lost_line_is_deleted(hunks.drop_first(), a.skip(gap + was.len()), rest, x);
        let h = choose|h: int|
            0 <= h < hunks.drop_first().len() && holds(
                #[trigger] hunks.drop_first()[h],
                Tag::Delete,
                x,
            );
        assert(hunks[h + 1] == hunks.drop_first()[h]);
    }
}

} // verus!
