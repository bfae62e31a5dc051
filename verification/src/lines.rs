//! The lines of a text.
use vstd::prelude::*;

verus! {

/// Whether a character ends a line.
pub open spec fn is_break(c: char) -> bool {
    c == '\n' || c == '\r'
}

/// Whether no character of a text ends a line.
pub open spec fn unbroken(s: Seq<char>) -> bool {
    forall|i: int| 0 <= i < s.len() ==> !is_break(#[trigger] s[i])
}

/// The length of the first line of a text, with its ending: a line feed, a carriage return, or a
/// carriage return and a line feed behind it. The last line may have none.
pub open spec fn line_length(s: Seq<char>) -> nat
    decreases s.len(),
{
    if s.len() == 0 {
        0
    } else if s[0] == '\r' && s.len() > 1 && s[1] == '\n' {
        2
    } else if is_break(s[0]) {
        1
    } else {
        1 + line_length(s.drop_first())
    }
}

/// The lines of a text, each with its ending.
pub open spec fn lines_of(s: Seq<char>) -> Seq<Seq<char>>
    decreases s.len(),
{
    if s.len() == 0 {
        Seq::empty()
    } else {
        proof {
            lemma_line_length(s);
        }
        seq![s.take(line_length(s) as int)] + lines_of(s.skip(line_length(s) as int))
    }
}

/// The text of lines, one behind the other.
pub open spec fn joined(lines: Seq<Seq<char>>) -> Seq<char>
    decreases lines.len(),
{
    if lines.len() == 0 {
        Seq::empty()
    } else {
        lines[0] + joined(lines.drop_first())
    }
}

/// `s` without `c` at its end.
pub open spec fn without_last(s: Seq<char>, c: char) -> Seq<char> {
    if s.len() > 0 && s.last() == c {
        s.drop_last()
    } else {
        s
    }
}

/// A line without its ending.
pub open spec fn without_end(s: Seq<char>) -> Seq<char> {
    without_last(without_last(s, '\n'), '\r')
}

/// Whether `part` stands somewhere in `s`.
pub open spec fn stands_in(part: Seq<char>, s: Seq<char>) -> bool {
    exists|i: int, j: int| 0 <= i <= j <= s.len() && #[trigger] s.subrange(i, j) == part
}

/// The first line of a text that is not empty is not empty either, and lies within the text.
pub proof fn lemma_line_length(s: Seq<char>)
    ensures
        line_length(s) <= s.len(),
        s.len() > 0 ==> line_length(s) > 0,
    decreases s.len(),
{
    if s.len() > 0 {
        lemma_line_length(s.drop_first());
    }
}

proof fn lemma_first_line_unbroken(s: Seq<char>)
    ensures
        unbroken(without_end(s.take(line_length(s) as int))),
    decreases s.len(),
{
    lemma_line_length(s);
    let line = s.take(line_length(s) as int);
    if s.len() == 0 {
    } else if s[0] == '\r' && s.len() > 1 && s[1] == '\n' {
        assert(without_last(line, '\n') =~= seq!['\r']);
        assert(without_end(line) =~= Seq::empty());
    } else if is_break(s[0]) {
        assert(without_end(line) =~= Seq::empty());
    } else {
        let rest = s.drop_first();
        let tail = rest.take(line_length(rest) as int);
        lemma_line_length(rest);
        lemma_first_line_unbroken(rest);
        assert(line =~= seq![s[0]] + tail);
        assert(without_last(line, '\n') =~= seq![s[0]] + without_last(tail, '\n'));
        assert(without_end(line) =~= seq![s[0]] + without_end(tail));
        assert forall|i: int| 0 <= i < without_end(line).len() implies !is_break(
            #[trigger] without_end(line)[i],
        ) by {
            if i > 0 {
                assert(without_end(line)[i] == without_end(tail)[i - 1]);
            }
        }
    }
}

/// The lines of a text, one behind the other, are the text.
pub proof fn law_lines_join(s: Seq<char>)
    ensures
        joined(lines_of(s)) == s,
    decreases s.len(),
{
    if s.len() > 0 {
        lemma_line_length(s);
        let n = line_length(s) as int;
        law_lines_join(s.skip(n));
        assert(lines_of(s).drop_first() =~= lines_of(s.skip(n)));
        assert(s.take(n) + s.skip(n) =~= s);
    }
}

/// Each line of a text stands in the text, holds something, and ends lines nowhere but at its end.
pub proof fn law_line(s: Seq<char>, line: Seq<char>)
    requires
        lines_of(s).contains(line),
    ensures
        line.len() > 0,
        unbroken(without_end(line)),
        stands_in(line, s),
        stands_in(without_end(line), s),
    decreases s.len(),
{
    lemma_line_length(s);
    let n = line_length(s) as int;
    let lines = lines_of(s);
    let k = choose|k: int| 0 <= k < lines.len() && lines[k] == line;
    if k == 0 {
        lemma_first_line_unbroken(s);
        assert(s.subrange(0, n) =~= line);
        assert(s.subrange(0, without_end(line).len() as int) =~= without_end(line));
    } else {
        let rest = s.skip(n);
        assert(lines_of(rest)[k - 1] == line);
        law_line(rest, line);
        let (i, j) = choose|i: int, j: int|
            0 <= i <= j <= rest.len() && #[trigger] rest.subrange(i, j) == line;
        assert(s.subrange(i + n, j + n) =~= line);
        let short = without_end(line);
        assert(s.subrange(i + n, i + n + short.len()) =~= short);
    }
}

/// A line loses its ending, whichever it is, and nothing else.
pub proof fn law_line_loses_ending(line: Seq<char>)
    requires
        unbroken(line),
    ensures
        without_end(line + seq!['\n']) == line,
        without_end(line + seq!['\r', '\n']) == line,
        without_end(line + seq!['\r']) == line,
        without_end(line) == line,
{
    assert((line + seq!['\n']).drop_last() =~= line);
    assert((line + seq!['\r', '\n']).drop_last() =~= line + seq!['\r']);
    assert((line + seq!['\r']).drop_last() =~= line);
    if line.len() > 0 {
        assert(!is_break(line[line.len() - 1]));
    }
}

proof fn lemma_line_length_of(line: Seq<char>, rest: Seq<char>)
    requires
        unbroken(line),
        rest.len() > 0 ==> is_break(rest[0]),
    ensures
        line_length(line + rest) == line.len() + line_length(rest),
    decreases line.len(),
{
    if line.len() == 0 {
        assert(line + rest =~= rest);
    } else {
        let less = line.drop_first();
        assert((line + rest).drop_first() =~= less + rest);
        assert((line + rest)[0] == line[0]);
        assert(!is_break(line[0]));
        assert(unbroken(less)) by {
            assert forall|i: int| 0 <= i < less.len() implies !is_break(#[trigger] less[i]) by {
                assert(less[i] == line[i + 1]);
            }
        }
        lemma_line_length_of(less, rest);
    }
}

/// A line that is ended is the first one of a text, with its ending, and those of the rest follow; a
/// text that nothing ends is a single line, and an empty text has none.
pub proof fn law_first_line(line: Seq<char>, rest: Seq<char>)
    requires
        unbroken(line),
    ensures
        lines_of(line + seq!['\n'] + rest) == seq![line + seq!['\n']] + lines_of(rest),
        lines_of(line + seq!['\r', '\n'] + rest) == seq![line + seq!['\r', '\n']] + lines_of(rest),
        (rest.len() > 0 ==> rest[0] != '\n') ==> lines_of(line + seq!['\r'] + rest) == seq![
            line + seq!['\r'],
        ] + lines_of(rest),
        line.len() > 0 ==> lines_of(line) == seq![line],
        lines_of(Seq::empty()).len() == 0,
{
    let none = Seq::<char>::empty();
    let feed = seq!['\n'] + rest;
    let both = seq!['\r', '\n'] + rest;
    let back = seq!['\r'] + rest;
    lemma_line_length_of(line, feed);
    lemma_line_length_of(line, both);
    lemma_line_length_of(line, back);
    lemma_line_length_of(line, none);
    assert(line + seq!['\n'] + rest =~= line + feed);
    assert(line + seq!['\r', '\n'] + rest =~= line + both);
    assert(line + seq!['\r'] + rest =~= line + back);
    assert(line + none =~= line);
    assert((line + feed).take(line.len() as int + 1) =~= line + seq!['\n']);
    assert((line + feed).skip(line.len() as int + 1) =~= rest);
    assert((line + both).take(line.len() as int + 2) =~= line + seq!['\r', '\n']);
    assert((line + both).skip(line.len() as int + 2) =~= rest);
    assert((line + back).take(line.len() as int + 1) =~= line + seq!['\r']);
    assert((line + back).skip(line.len() as int + 1) =~= rest);
    assert(line.take(line.len() as int) =~= line);
    assert(line.skip(line.len() as int) =~= none);
    assert(lines_of(none) =~= Seq::empty());
    assert(seq![line] + lines_of(none) =~= seq![line]);
}

} // verus!
