//! Text as sequences of characters: searching, splitting, trimming and joining.
use vstd::prelude::*;
use vstd::string::*;

verus! {

/// `String::push` appends one character.
pub assume_specification[ String::push ](s: &mut String, ch: char)
    ensures
        final(s)@ == old(s)@.push(ch),
;

/// The position of the first `c` in `s`, or the length of `s` where there is none.
pub open spec fn first_index(s: Seq<char>, c: char) -> int
    decreases s.len(),
{
    if s.len() == 0 || s[0] == c {
        0
    } else {
        1 + first_index(s.drop_first(), c)
    }
}

/// The part of `s` before its first `c`; all of `s` where there is none.
pub open spec fn before_char(s: Seq<char>, c: char) -> Seq<char> {
    s.take(first_index(s, c))
}

/// The part of `s` behind its first `c`; nothing where there is none.
pub open spec fn after_char(s: Seq<char>, c: char) -> Seq<char> {
    if first_index(s, c) < s.len() {
        s.skip(first_index(s, c) + 1)
    } else {
        Seq::empty()
    }
}

/// The position at which `p` first occurs in `s`.
pub open spec fn first_match(s: Seq<char>, p: Seq<char>) -> Option<int>
    decreases s.len(),
{
    if p.is_prefix_of(s) {
        Some(0)
    } else if s.len() == 0 {
        None
    } else {
        match first_match(s.drop_first(), p) {
            Some(i) => Some(i + 1),
            None => None,
        }
    }
}

/// The characters that Unicode calls white space.
pub open spec fn white_space(c: char) -> bool {
    ||| '\u{9}' <= c <= '\u{d}'
    ||| c == '\u{20}'
    ||| c == '\u{85}'
    ||| c == '\u{a0}'
    ||| c == '\u{1680}'
    ||| '\u{2000}' <= c <= '\u{200a}'
    ||| c == '\u{2028}'
    ||| c == '\u{2029}'
    ||| c == '\u{202f}'
    ||| c == '\u{205f}'
    ||| c == '\u{3000}'
}

/// `s` without the white space at its start.
pub open spec fn trimmed_start(s: Seq<char>) -> Seq<char>
    decreases s.len(),
{
    if s.len() > 0 && white_space(s[0]) {
        trimmed_start(s.drop_first())
    } else {
        s
    }
}

/// `s` without the white space at its end.
pub open spec fn trimmed_end(s: Seq<char>) -> Seq<char>
    decreases s.len(),
{
    if s.len() > 0 && white_space(s.last()) {
        trimmed_end(s.drop_last())
    } else {
        s
    }
}

/// `s` without the white space at either end.
pub open spec fn trimmed(s: Seq<char>) -> Seq<char> {
    trimmed_end(trimmed_start(s))
}

/// `s` in lower case.
pub uninterp spec fn lowercase(s: Seq<char>) -> Seq<char>;

/// `str::to_lowercase`: the lower case of a text depends on the text alone.
#[verifier::external_body]
pub(crate) fn to_lowercase(s: &str) -> (r: String)
    ensures
        r@ == lowercase(s@),
{
    s.to_lowercase()
}

/// The first `n` characters of `s`; all of `s` where it is shorter.
pub open spec fn leading(s: Seq<char>, n: nat) -> Seq<char> {
    if s.len() <= n {
        s
    } else {
        s.take(n as int)
    }
}

/// The views of a list of texts.
pub open spec fn texts(v: Seq<String>) -> Seq<Seq<char>> {
    Seq::new(v.len(), |i: int| v[i]@)
}

/// The view of an optional text.
pub open spec fn optional_view(text: Option<&str>) -> Option<Seq<char>> {
    match text {
        Some(s) => Some(s@),
        None => None,
    }
}

/// The view of an optional text.
pub open spec fn optional_text(text: Option<String>) -> Option<Seq<char>> {
    match text {
        Some(s) => Some(s@),
        None => None,
    }
}

/// The views of an optional list of texts.
pub open spec fn optional_texts(list: Option<Vec<String>>) -> Option<Seq<Seq<char>>> {
    match list {
        Some(v) => Some(texts(v@)),
        None => None,
    }
}

/// Whether `c` is white space.
pub fn is_white_space(c: char) -> (r: bool)
    ensures
        r == white_space(c),
{
    ('\u{9}' <= c && c <= '\u{d}') || c == '\u{20}' || c == '\u{85}' || c == '\u{a0}' || c
        == '\u{1680}' || ('\u{2000}' <= c && c <= '\u{200a}') || c == '\u{2028}' || c == '\u{2029}'
        || c == '\u{202f}' || c == '\u{205f}' || c == '\u{3000}'
}

/// The characters of `s`.
pub fn chars_of(s: &str) -> (r: Vec<char>)
    ensures
        r@ == s@,
{
    let mut r: Vec<char> = Vec::new();
    for c in it: s.chars()
        invariant
            it.seq() == s@,
            r@ == it.seq().take(it.index()),
    {
        r.push(c);
    }
    r
}

/// The text of the characters from `from` up to `to`.
pub fn text_of(chars: &Vec<char>, from: usize, to: usize) -> (r: String)
    requires
        from <= to <= chars@.len(),
    ensures
        r@ == chars@.subrange(from as int, to as int),
{
    let mut r = String::new();
    let mut i: usize = from;
    while i < to
        invariant
            from <= i <= to <= chars@.len(),
            r@ == chars@.subrange(from as int, i as int),
        decreases to - i,
    {
        r.push(chars[i]);
        i += 1;
    }
    r
}

/// `a` followed by `b`.
pub fn join(a: &str, b: &str) -> (r: String)
    ensures
        r@ == a@ + b@,
{
    let mut r = a.to_owned();
    r.append(b);
    r
}

/// Whether two texts are equal.
pub fn same(a: &str, b: &str) -> (r: bool)
    ensures
        r == (a@ == b@),
{
    let x = a.as_bytes();
    let y = b.as_bytes();
    proof {
        vstd::utf8::encode_utf8_decode_utf8(a@);
        vstd::utf8::encode_utf8_decode_utf8(b@);
    }
    if x.len() != y.len() {
        return false;
    }
    let mut i: usize = 0;
    while i < x.len()
        invariant
            x@.len() == y@.len(),
            x@ == vstd::utf8::encode_utf8(a@),
            y@ == vstd::utf8::encode_utf8(b@),
            i <= x@.len(),
            forall|j: int| 0 <= j < i ==> x@[j] == y@[j],
        decreases x@.len() - i,
    {
        if x[i] != y[i] {
            return false;
        }
        i += 1;
    }
    proof {
        assert(x@ =~= y@);
    }
    true
}

/// The position of the first `c` at or behind `from`, or the length where there is none.
pub fn find_char(chars: &Vec<char>, from: usize, c: char) -> (r: usize)
    requires
        from <= chars@.len(),
    ensures
        from <= r <= chars@.len(),
        r == from + first_index(chars@.skip(from as int), c),
{
    let mut i: usize = from;
    while i < chars.len() && chars[i] != c
        invariant
            from <= i <= chars@.len(),
            from + first_index(chars@.skip(from as int), c) == i + first_index(
                chars@.skip(i as int),
                c,
            ),
        decreases chars@.len() - i,
    {
        proof {
            assert(chars@.skip(i as int).drop_first() =~= chars@.skip(i + 1));
        }
        i += 1;
    }
    i
}

/// The part of `s` before its first `c`; all of `s` where there is none.
pub fn part_before(s: &str, c: char) -> (r: String)
    ensures
        r@ == before_char(s@, c),
{
    let chars = chars_of(s);
    let end = find_char(&chars, 0, c);
    proof {
        assert(chars@.skip(0) =~= chars@);
    }
    text_of(&chars, 0, end)
}

/// The part of `s` behind its first `c`; nothing where there is none.
pub fn part_after(s: &str, c: char) -> (r: String)
    ensures
        r@ == after_char(s@, c),
{
    let chars = chars_of(s);
    let at = find_char(&chars, 0, c);
    proof {
        assert(chars@.skip(0) =~= chars@);
    }
    if at < chars.len() {
        proof {
            assert(chars@.skip(at + 1) =~= chars@.subrange(at + 1, chars@.len() as int));
        }
        text_of(&chars, at + 1, chars.len())
    } else {
        String::new()
    }
}

/// Whether `p` occurs in `s` at position `at`.
fn matches_at(s: &Vec<char>, p: &Vec<char>, at: usize) -> (r: bool)
    requires
        at <= s@.len(),
    ensures
        r == p@.is_prefix_of(s@.skip(at as int)),
{
    if p.len() > s.len() - at {
        return false;
    }
    let mut i: usize = 0;
    while i < p.len()
        invariant
            at + p@.len() <= s.len(),
            i <= p@.len(),
            forall|j: int| 0 <= j < i ==> p@[j] == s@[at + j],
        decreases p@.len() - i,
    {
        if p[i] != s[at + i] {
            proof {
                assert(s@.skip(at as int).subrange(0, p@.len() as int)[i as int] == s@[at + i]);
            }
            return false;
        }
        i += 1;
    }
    proof {
        assert(p@ =~= s@.skip(at as int).subrange(0, p@.len() as int));
    }
    true
}

/// Where `p` first occurs in `s`.
pub fn find(s: &Vec<char>, p: &Vec<char>) -> (r: Option<usize>)
    ensures
        match r {
            Some(i) => first_match(s@, p@) == Some(i as int),
            None => first_match(s@, p@) is None,
        },
        r matches Some(i) ==> i + p@.len() <= s@.len(),
{
    let mut i: usize = 0;
    proof {
        assert(s@.skip(0) =~= s@);
    }
    while i <= s.len()
        invariant
            i <= s@.len() + 1,
            i <= s@.len() ==> (match first_match(s@.skip(i as int), p@) {
                Some(k) => first_match(s@, p@) == Some(i + k),
                None => first_match(s@, p@) is None,
            }),
            i == s@.len() + 1 ==> first_match(s@, p@) is None,
        decreases s@.len() + 1 - i,
    {
        if matches_at(s, p, i) {
            return Some(i);
        }
        if i == s.len() {
            return None;
        }
        proof {
            assert(s@.skip(i as int).drop_first() =~= s@.skip(i + 1));
        }
        i += 1;
    }
    None
}

/// Whether `s` starts with `p`.
pub fn starts_with(s: &str, p: &str) -> (r: bool)
    ensures
        r == p@.is_prefix_of(s@),
{
    let chars = chars_of(s);
    proof {
        assert(chars@.skip(0) =~= chars@);
    }
    matches_at(&chars, &chars_of(p), 0)
}

/// What follows `p` in `s`, where `s` starts with `p`.
pub fn strip_prefix(s: &str, p: &str) -> (r: Option<String>)
    ensures
        match r {
            Some(rest) => p@.is_prefix_of(s@) && rest@ == s@.skip(p@.len() as int),
            None => !p@.is_prefix_of(s@),
        },
{
    let chars = chars_of(s);
    let prefix = chars_of(p);
    proof {
        assert(chars@.skip(0) =~= chars@);
    }
    if matches_at(&chars, &prefix, 0) {
        proof {
            assert(chars@.skip(prefix@.len() as int) =~= chars@.subrange(
                prefix@.len() as int,
                chars@.len() as int,
            ));
        }
        Some(text_of(&chars, prefix.len(), chars.len()))
    } else {
        None
    }
}

/// What stands before `p` in `s`, where `s` ends with `p`.
pub fn strip_suffix(s: &str, p: &str) -> (r: Option<String>)
    ensures
        match r {
            Some(rest) => p@.is_suffix_of(s@) && rest@ == s@.take(s@.len() - p@.len()),
            None => !p@.is_suffix_of(s@),
        },
{
    let chars = chars_of(s);
    let suffix = chars_of(p);
    if suffix.len() > chars.len() {
        return None;
    }
    let at: usize = chars.len() - suffix.len();
    proof {
        assert(chars@.skip(at as int) =~= chars@.subrange(at as int, chars@.len() as int));
        assert(chars@.skip(at as int).subrange(0, suffix@.len() as int) =~= chars@.skip(at as int));
    }
    if matches_at(&chars, &suffix, at) {
        proof {
            assert(chars@.take(at as int) =~= chars@.subrange(0, at as int));
        }
        Some(text_of(&chars, 0, at))
    } else {
        None
    }
}

/// The first `n` characters of `s`; all of `s` where it is shorter.
pub fn take_chars(s: &str, n: usize) -> (r: String)
    ensures
        r@ == leading(s@, n as nat),
{
    let chars = chars_of(s);
    if chars.len() <= n {
        s.to_owned()
    } else {
        text_of(&chars, 0, n)
    }
}

/// `s` without the white space at either end.
pub fn trim(s: &str) -> (r: String)
    ensures
        r@ == trimmed(s@),
{
    let chars = chars_of(s);
    let mut start: usize = 0;
    proof {
        assert(chars@.skip(0) =~= chars@);
    }
    while start < chars.len() && is_white_space(chars[start])
        invariant
            start <= chars@.len(),
            trimmed_start(chars@) == trimmed_start(chars@.skip(start as int)),
        decreases chars@.len() - start,
    {
        proof {
            assert(chars@.skip(start as int).drop_first() =~= chars@.skip(start + 1));
        }
        start += 1;
    }
    let mut end: usize = chars.len();
    proof {
        assert(chars@.skip(start as int) =~= chars@.subrange(start as int, end as int));
    }
    while end > start && is_white_space(chars[end - 1])
        invariant
            start <= end <= chars@.len(),
            trimmed(chars@) == trimmed_end(chars@.subrange(start as int, end as int)),
        decreases end,
    {
        proof {
            assert(chars@.subrange(start as int, end as int).drop_last() =~= chars@.subrange(
                start as int,
                end - 1,
            ));
        }
        end -= 1;
    }
    text_of(&chars, start, end)
}

/// The pieces of `s` between its separators `sep`; one piece more than there are separators.
pub open spec fn pieces(s: Seq<char>, sep: char) -> Seq<Seq<char>>
    decreases s.len(),
{
    if first_index(s, sep) < s.len() {
        proof {
            lemma_first_index(s, sep);
        }
        seq![before_char(s, sep)] + pieces(after_char(s, sep), sep)
    } else {
        seq![s]
    }
}

/// The longest part without white space at the start of `s`.
pub open spec fn first_word(s: Seq<char>) -> Seq<char>
    decreases s.len(),
{
    if s.len() == 0 || white_space(s[0]) {
        Seq::empty()
    } else {
        seq![s[0]] + first_word(s.drop_first())
    }
}

/// The words of `s`: its longest parts without white space.
pub open spec fn words(s: Seq<char>) -> Seq<Seq<char>>
    decreases s.len(),
{
    if s.len() == 0 {
        Seq::empty()
    } else if white_space(s[0]) {
        words(s.drop_first())
    } else {
        proof {
            lemma_first_word(s);
        }
        seq![first_word(s)] + words(s.skip(first_word(s).len() as int))
    }
}

/// The first word of a text is what the text starts with.
pub proof fn lemma_first_word(s: Seq<char>)
    ensures
        first_word(s).is_prefix_of(s),
        s.len() > 0 && !white_space(s[0]) ==> first_word(s).len() > 0,
    decreases s.len(),
{
    if s.len() > 0 && !white_space(s[0]) {
        lemma_first_word(s.drop_first());
        let w = first_word(s.drop_first());
        assert(first_word(s) =~= s.subrange(0, 1 + w.len() as int));
    }
}

/// The first `c` of a text lies within it, and nothing before it is a `c`.
pub proof fn lemma_first_index(s: Seq<char>, c: char)
    ensures
        0 <= first_index(s, c) <= s.len(),
        first_index(s, c) < s.len() ==> s[first_index(s, c)] == c,
        forall|i: int| 0 <= i < first_index(s, c) ==> s[i] != c,
    decreases s.len(),
{
    if s.len() > 0 && s[0] != c {
        lemma_first_index(s.drop_first(), c);
        assert forall|i: int| 0 <= i < first_index(s, c) implies s[i] != c by {
            if i > 0 {
                assert(s[i] == s.drop_first()[i - 1]);
            }
        }
    }
}

/// The pieces of `s` between its separators `sep`.
pub fn split(s: &str, sep: char) -> (r: Vec<String>)
    ensures
        texts(r@) == pieces(s@, sep),
{
    let chars = chars_of(s);
    let mut r: Vec<String> = Vec::new();
    let mut start: usize = 0;
    proof {
        assert(chars@.skip(0) =~= chars@);
    }
    loop
        invariant
            start <= chars@.len(),
            chars@ == s@,
            pieces(s@, sep) == texts(r@) + pieces(chars@.skip(start as int), sep),
        decreases chars@.len() - start,
    {
        let end = find_char(&chars, start, sep);
        let ghost rest = chars@.skip(start as int);
        let ghost before = r@;
        r.push(text_of(&chars, start, end));
        proof {
            assert(r@.last()@ =~= before_char(rest, sep));
            assert(texts(r@) =~= texts(before).push(r@.last()@));
        }
        if end == chars.len() {
            proof {
                assert(before_char(rest, sep) =~= rest);
            }
            return r;
        }
        proof {
            assert(after_char(rest, sep) =~= chars@.skip(end + 1));
            assert(texts(before) + (seq![before_char(rest, sep)] + pieces(
                after_char(rest, sep),
                sep,
            )) =~= texts(r@) + pieces(chars@.skip(end + 1), sep));
        }
        start = end + 1;
    }
}

/// The words of `s`.
pub fn split_words(s: &str) -> (r: Vec<String>)
    ensures
        texts(r@) == words(s@),
{
    let chars = chars_of(s);
    let mut r: Vec<String> = Vec::new();
    let mut i: usize = 0;
    proof {
        assert(chars@.skip(0) =~= chars@);
        assert(texts(r@) + words(s@) =~= words(s@));
    }
    while i < chars.len()
        invariant
            i <= chars@.len(),
            chars@ == s@,
            words(s@) == texts(r@) + words(chars@.skip(i as int)),
        decreases chars@.len() - i,
    {
        let ghost rest = chars@.skip(i as int);
        if is_white_space(chars[i]) {
            proof {
                assert(rest.drop_first() =~= chars@.skip(i + 1));
            }
            i += 1;
        } else {
            let start = i;
            let ghost word = first_word(rest);
            proof {
                assert(rest.skip(0) =~= rest);
                assert(chars@.subrange(start as int, start as int) + word =~= word);
                lemma_first_word(rest);
            }
            while i < chars.len() && !is_white_space(chars[i])
                invariant
                    start <= i <= chars@.len(),
                    word == first_word(chars@.skip(start as int)),
                    word == chars@.subrange(start as int, i as int) + first_word(
                        chars@.skip(i as int),
                    ),
                    word.len() > 0,
                decreases chars@.len() - i,
            {
                proof {
                    let now = chars@.skip(i as int);
                    assert(now.drop_first() =~= chars@.skip(i + 1));
                    assert(chars@.subrange(start as int, i as int) + first_word(now)
                        =~= chars@.subrange(start as int, i + 1) + first_word(
                        chars@.skip(i + 1),
                    ));
                }
                i += 1;
            }
            let ghost before = r@;
            r.push(text_of(&chars, start, i));
            proof {
                assert(first_word(chars@.skip(i as int)) =~= Seq::<char>::empty());
                assert(word =~= chars@.subrange(start as int, i as int));
                assert(rest.skip(word.len() as int) =~= chars@.skip(i as int));
                assert(texts(r@) =~= texts(before).push(word));
                assert(texts(before) + (seq![word] + words(chars@.skip(i as int))) =~= texts(r@)
                    + words(chars@.skip(i as int)));
            }
        }
    }
    proof {
        assert(texts(r@) + words(chars@.skip(i as int)) =~= texts(r@));
    }
    r
}

// What the parts of a text are.

/// Whether a text is white space alone.
pub open spec fn blank(s: Seq<char>) -> bool {
    forall|i: int| 0 <= i < s.len() ==> white_space(#[trigger] s[i])
}

/// Whether no character of a text is white space.
pub open spec fn solid(s: Seq<char>) -> bool {
    forall|i: int| 0 <= i < s.len() ==> !white_space(#[trigger] s[i])
}

/// The code points of white space: the tab and the line ends, the space, the next-line control,
/// the no-break space, the Ogham space, the spaces of typography, the line and paragraph
/// separators, the narrow and the mathematical space, and the ideographic space.
pub open spec fn white_space_codes() -> Seq<u32> {
    seq![
        0x9,
        0xa,
        0xb,
        0xc,
        0xd,
        0x20,
        0x85,
        0xa0,
        0x1680,
        0x2000,
        0x2001,
        0x2002,
        0x2003,
        0x2004,
        0x2005,
        0x2006,
        0x2007,
        0x2008,
        0x2009,
        0x200a,
        0x2028,
        0x2029,
        0x202f,
        0x205f,
        0x3000,
    ]
}

/// A character is white space exactly where its code point is one of those of white space.
pub proof fn law_white_space(c: char)
    ensures
        white_space(c) <==> white_space_codes().contains(c as u32),
{
    let codes = white_space_codes();
    assert(codes[0] == 0x9);
    assert(codes[1] == 0xa);
    assert(codes[2] == 0xb);
    assert(codes[3] == 0xc);
    assert(codes[4] == 0xd);
    assert(codes[5] == 0x20);
    assert(codes[6] == 0x85);
    assert(codes[7] == 0xa0);
    assert(codes[8] == 0x1680);
    assert(codes[9] == 0x2000);
    assert(codes[10] == 0x2001);
    assert(codes[11] == 0x2002);
    assert(codes[12] == 0x2003);
    assert(codes[13] == 0x2004);
    assert(codes[14] == 0x2005);
    assert(codes[15] == 0x2006);
    assert(codes[16] == 0x2007);
    assert(codes[17] == 0x2008);
    assert(codes[18] == 0x2009);
    assert(codes[19] == 0x200a);
    assert(codes[20] == 0x2028);
    assert(codes[21] == 0x2029);
    assert(codes[22] == 0x202f);
    assert(codes[23] == 0x205f);
    assert(codes[24] == 0x3000);
}

/// What stands before and behind a character in a text that has it for the first time there, and in
/// a text that does not have it.
pub proof fn law_parts_around(a: Seq<char>, c: char, b: Seq<char>)
    requires
        !a.contains(c),
    ensures
        before_char(a + seq![c] + b, c) == a,
        after_char(a + seq![c] + b, c) == b,
        before_char(a, c) == a,
        after_char(a, c) == Seq::<char>::empty(),
{
    let s = a + seq![c] + b;
    lemma_first_index(s, c);
    lemma_first_index(a, c);
    assert(s[a.len() as int] == c);
    let at = first_index(s, c);
    if at < a.len() {
        assert(a[at] == c);
    }
    assert(before_char(s, c) =~= a);
    assert(after_char(s, c) =~= b);
    if first_index(a, c) < a.len() {
        assert(a[first_index(a, c)] == c);
    }
    assert(before_char(a, c) =~= a);
}

/// The first occurrence of a text in another is an occurrence, and none is before it; where there
/// is said to be none, there is none.
pub proof fn law_first_match(s: Seq<char>, p: Seq<char>)
    ensures
        match first_match(s, p) {
            Some(i) => 0 <= i <= s.len() && p.is_prefix_of(s.skip(i)) && forall|j: int|
                0 <= j < i ==> !p.is_prefix_of(#[trigger] s.skip(j)),
            None => forall|j: int| 0 <= j <= s.len() ==> !p.is_prefix_of(#[trigger] s.skip(j)),
        },
    decreases s.len(),
{
    assert(s.skip(0) =~= s);
    if !p.is_prefix_of(s) && s.len() > 0 {
        let rest = s.drop_first();
        law_first_match(rest, p);
        assert forall|j: int| 0 < j <= s.len() implies #[trigger] s.skip(j) == rest.skip(j - 1) by {
            assert(s.skip(j) =~= rest.skip(j - 1));
        }
        if let Some(i) = first_match(rest, p) {
            assert(s.skip(i + 1) == rest.skip(i));
            assert forall|j: int| 0 <= j < i + 1 implies !p.is_prefix_of(
                #[trigger] s.skip(j),
            ) by {
                if j > 0 {
                    assert(s.skip(j) == rest.skip(j - 1));
                }
            }
        } else {
            assert forall|j: int| 0 <= j <= s.len() implies !p.is_prefix_of(
                #[trigger] s.skip(j),
            ) by {
                if j > 0 {
                    assert(s.skip(j) == rest.skip(j - 1));
                }
            }
        }
    } else if s.len() == 0 {
        assert forall|j: int| 0 <= j <= s.len() && !p.is_prefix_of(s) implies !p.is_prefix_of(
            #[trigger] s.skip(j),
        ) by {
            assert(s.skip(j) =~= s);
        }
    }
}

proof fn lemma_trimmed_start(a: Seq<char>, rest: Seq<char>)
    requires
        blank(a),
        rest.len() > 0 ==> !white_space(rest[0]),
    ensures
        trimmed_start(a + rest) == rest,
    decreases a.len(),
{
    if a.len() == 0 {
        assert(a + rest =~= rest);
    } else {
        assert((a + rest).drop_first() =~= a.drop_first() + rest);
        assert(blank(a.drop_first())) by {
            assert forall|i: int| 0 <= i < a.drop_first().len() implies white_space(
                #[trigger] a.drop_first()[i],
            ) by {
                assert(a.drop_first()[i] == a[i + 1]);
            }
        }
        lemma_trimmed_start(a.drop_first(), rest);
    }
}

proof fn lemma_trimmed_end(rest: Seq<char>, b: Seq<char>)
    requires
        blank(b),
        rest.len() > 0 ==> !white_space(rest.last()),
    ensures
        trimmed_end(rest + b) == rest,
    decreases b.len(),
{
    if b.len() == 0 {
        assert(rest + b =~= rest);
    } else {
        assert((rest + b).drop_last() =~= rest + b.drop_last());
        assert(blank(b.drop_last())) by {
            assert forall|i: int| 0 <= i < b.drop_last().len() implies white_space(
                #[trigger] b.drop_last()[i],
            ) by {
                assert(b.drop_last()[i] == b[i]);
            }
        }
        lemma_trimmed_end(rest, b.drop_last());
    }
}

/// Trimming takes away the white space at both ends of a text, and nothing between.
pub proof fn law_trimmed(a: Seq<char>, middle: Seq<char>, b: Seq<char>)
    requires
        blank(a),
        blank(b),
        middle.len() > 0 ==> !white_space(middle[0]) && !white_space(middle.last()),
    ensures
        trimmed(a + middle + b) == middle,
{
    if middle.len() > 0 {
        assert(a + middle + b =~= a + (middle + b));
        lemma_trimmed_start(a, middle + b);
        lemma_trimmed_end(middle, b);
    } else {
        assert(blank(a + b));
        assert(a + middle + b =~= (a + b) + Seq::<char>::empty());
        lemma_trimmed_start(a + b, Seq::empty());
        assert(trimmed_end(Seq::<char>::empty()) =~= Seq::empty());
        assert(middle =~= Seq::empty());
    }
}

proof fn lemma_ends_blank(s: Seq<char>) -> (cut: (int, int))
    ensures
        0 <= cut.0 <= cut.1 <= s.len(),
        trimmed(s) == s.subrange(cut.0, cut.1),
        blank(s.take(cut.0)),
        blank(s.skip(cut.1)),
        cut.0 < cut.1 ==> !white_space(s[cut.0]) && !white_space(s[cut.1 - 1]),
{
    let from = lemma_start_blank(s);
    let rest = s.skip(from);
    let to = lemma_end_blank(rest);
    assert(rest.take(to) =~= s.subrange(from, from + to));
    assert(s.skip(from + to) =~= rest.skip(to));
    (from, from + to)
}

proof fn lemma_start_blank(s: Seq<char>) -> (from: int)
    ensures
        0 <= from <= s.len(),
        trimmed_start(s) == s.skip(from),
        blank(s.take(from)),
        from < s.len() ==> !white_space(s[from]),
    decreases s.len(),
{
    if s.len() > 0 && white_space(s[0]) {
        let more = lemma_start_blank(s.drop_first());
        assert(s.drop_first().skip(more) =~= s.skip(more + 1));
        assert forall|i: int| 0 <= i < more + 1 implies white_space(
            #[trigger] s.take(more + 1)[i],
        ) by {
            if i > 0 {
                assert(s.drop_first().take(more)[i - 1] == s[i]);
            }
        }
        more + 1
    } else {
        assert(s.skip(0) =~= s);
        0
    }
}

proof fn lemma_end_blank(s: Seq<char>) -> (to: int)
    ensures
        0 <= to <= s.len(),
        trimmed_end(s) == s.take(to),
        blank(s.skip(to)),
        0 < to ==> !white_space(s[to - 1]),
    decreases s.len(),
{
    if s.len() > 0 && white_space(s.last()) {
        let to = lemma_end_blank(s.drop_last());
        assert(s.drop_last().take(to) =~= s.take(to));
        assert forall|i: int| 0 <= i < s.skip(to).len() implies white_space(
            #[trigger] s.skip(to)[i],
        ) by {
            if i < s.skip(to).len() - 1 {
                assert(s.drop_last().skip(to)[i] == s.skip(to)[i]);
            }
        }
        to
    } else {
        assert(s.take(s.len() as int) =~= s);
        s.len() as int
    }
}

/// A trimmed text has no white space at its ends, and is empty exactly where the text was white
/// space alone.
pub proof fn law_trimmed_ends(s: Seq<char>)
    ensures
        trimmed(s).len() > 0 ==> !white_space(trimmed(s)[0]) && !white_space(trimmed(s).last()),
        trimmed(s).len() == 0 <==> blank(s),
        trimmed(trimmed(s)) == trimmed(s),
{
    let (from, to) = lemma_ends_blank(s);
    let middle = trimmed(s);
    assert(s =~= s.take(from) + middle + s.skip(to));
    if middle.len() == 0 {
        assert forall|i: int| 0 <= i < s.len() implies white_space(#[trigger] s[i]) by {
            if i < from {
                assert(s.take(from)[i] == s[i]);
            } else {
                assert(s.skip(to)[i - to] == s[i]);
            }
        }
    } else {
        assert(middle[0] == s[from]);
        assert(middle.last() == s[to - 1]);
    }
    let none = Seq::<char>::empty();
    assert(none + middle + none =~= middle);
    law_trimmed(none, middle, none);
}

/// The first characters of a text are as many as are wanted, or all of them.
pub proof fn law_leading(s: Seq<char>, n: nat)
    ensures
        leading(s, n).is_prefix_of(s),
        leading(s, n).len() == if s.len() <= n {
            s.len()
        } else {
            n
        },
{
    assert(leading(s, n) =~= s.subrange(0, leading(s, n).len() as int));
}

proof fn lemma_skip_gap(gap: Seq<char>, rest: Seq<char>)
    requires
        blank(gap),
    ensures
        words(gap + rest) == words(rest),
    decreases gap.len(),
{
    if gap.len() == 0 {
        assert(gap + rest =~= rest);
    } else {
        assert((gap + rest).drop_first() =~= gap.drop_first() + rest);
        assert(blank(gap.drop_first())) by {
            assert forall|i: int| 0 <= i < gap.drop_first().len() implies white_space(
                #[trigger] gap.drop_first()[i],
            ) by {
                assert(gap.drop_first()[i] == gap[i + 1]);
            }
        }
        lemma_skip_gap(gap.drop_first(), rest);
    }
}

proof fn lemma_word(word: Seq<char>, rest: Seq<char>)
    requires
        solid(word),
        rest.len() > 0 ==> white_space(rest[0]),
    ensures
        first_word(word + rest) == word,
    decreases word.len(),
{
    let s = word + rest;
    if word.len() > 0 {
        let less = word.drop_first();
        assert(s.drop_first() =~= less + rest);
        assert(s[0] == word[0]);
        assert(solid(less)) by {
            assert forall|i: int| 0 <= i < less.len() implies !white_space(#[trigger] less[i]) by {
                assert(less[i] == word[i + 1]);
            }
        }
        lemma_word(less, rest);
        assert(seq![s[0]] + less =~= word);
    } else {
        assert(s =~= rest);
        assert(first_word(s) =~= word);
    }
}

/// The words of a text are what stands between white space: a word behind a gap is the first one,
/// those of the rest follow, and white space alone has none.
pub proof fn law_words(gap: Seq<char>, word: Seq<char>, rest: Seq<char>)
    requires
        blank(gap),
        solid(word),
        word.len() > 0,
        rest.len() > 0 ==> white_space(rest[0]),
    ensures
        words(gap + word + rest) == seq![word] + words(rest),
        words(gap) == Seq::<Seq<char>>::empty(),
{
    assert(gap + word + rest =~= gap + (word + rest));
    lemma_skip_gap(gap, word + rest);
    lemma_word(word, rest);
    assert((word + rest)[0] == word[0]);
    assert((word + rest).skip(word.len() as int) =~= rest);
    lemma_skip_gap(gap, Seq::empty());
    assert(gap + Seq::<char>::empty() =~= gap);
    assert(words(Seq::<char>::empty()) =~= Seq::empty());
}

/// A separator ends a piece of a text, and what follows it is split on; without one the text is a
/// single piece.
pub proof fn law_pieces(a: Seq<char>, sep: char, b: Seq<char>)
    requires
        !a.contains(sep),
    ensures
        pieces(a + seq![sep] + b, sep) == seq![a] + pieces(b, sep),
        pieces(a, sep) == seq![a],
{
    law_parts_around(a, sep, b);
    let s = a + seq![sep] + b;
    lemma_first_index(s, sep);
    lemma_first_index(a, sep);
    assert(s[a.len() as int] == sep);
    if first_index(a, sep) < a.len() {
        assert(a[first_index(a, sep)] == sep);
    }
}

/// Lists of texts and texts that may be missing, by what they hold.
pub proof fn law_texts_are_held(v: Vec<String>, i: int, s: String, t: &str)
    ensures
        texts(v@).len() == v@.len(),
        0 <= i < v@.len() ==> texts(v@)[i] == v@[i]@,
        optional_text(Some(s)) == Some(s@),
        optional_text(None) is None,
        optional_view(Some(t)) == Some(t@),
        optional_view(None) is None,
        optional_texts(Some(v)) == Some(texts(v@)),
        optional_texts(None) is None,
{
}

} // verus!
