//! The order of texts, and lists without repeats that keep it.
use crate::text::{chars_of, same, texts};
use vstd::prelude::*;

verus! {

/// Whether `a` comes before `b`: by their first difference, or as the shorter of the two.
pub open spec fn precedes(a: Seq<char>, b: Seq<char>) -> bool
    decreases a.len(),
{
    if b.len() == 0 {
        false
    } else if a.len() == 0 {
        true
    } else if a[0] != b[0] {
        a[0] < b[0]
    } else {
        precedes(a.drop_first(), b.drop_first())
    }
}

/// No text comes before itself.
pub proof fn law_precedes_irreflexive(a: Seq<char>)
    ensures
        !precedes(a, a),
    decreases a.len(),
{
    if a.len() > 0 {
        law_precedes_irreflexive(a.drop_first());
    }
}

/// What comes before a text comes before all that the text comes before.
pub proof fn law_precedes_transitive(a: Seq<char>, b: Seq<char>, c: Seq<char>)
    requires
        precedes(a, b),
        precedes(b, c),
    ensures
        precedes(a, c),
    decreases a.len(),
{
    if a.len() > 0 && a[0] == b[0] && b[0] == c[0] {
        law_precedes_transitive(a.drop_first(), b.drop_first(), c.drop_first());
    }
}

/// Of two different texts one comes before the other.
pub proof fn law_precedes_total(a: Seq<char>, b: Seq<char>)
    ensures
        a == b || precedes(a, b) || precedes(b, a),
    decreases a.len(),
{
    if a.len() > 0 && b.len() > 0 {
        if a[0] == b[0] {
            law_precedes_total(a.drop_first(), b.drop_first());
            if a.drop_first() == b.drop_first() {
                assert(a =~= seq![a[0]] + a.drop_first());
                assert(b =~= seq![b[0]] + b.drop_first());
            }
        }
    } else if a.len() == 0 && b.len() == 0 {
        assert(a =~= b);
    }
}

/// Whether `a` comes before `b`.
pub fn comes_before(a: &str, b: &str) -> (r: bool)
    ensures
        r == precedes(a@, b@),
{
    let x = chars_of(a);
    let y = chars_of(b);
    let mut i: usize = 0;
    proof {
        assert(x@.skip(0) =~= x@);
        assert(y@.skip(0) =~= y@);
    }
    while i < x.len() && i < y.len() && x[i] == y[i]
        invariant
            i <= x@.len(),
            i <= y@.len(),
            precedes(x@, y@) == precedes(x@.skip(i as int), y@.skip(i as int)),
        decreases x@.len() - i,
    {
        proof {
            assert(x@.skip(i as int).drop_first() =~= x@.skip(i + 1));
            assert(y@.skip(i as int).drop_first() =~= y@.skip(i + 1));
        }
        i += 1;
    }
    if i == y.len() {
        false
    } else if i == x.len() {
        true
    } else {
        x[i] < y[i]
    }
}

/// `list` with `x` put in its place; unchanged where it is there already.
pub open spec fn placed(list: Seq<Seq<char>>, x: Seq<char>) -> Seq<Seq<char>>
    decreases list.len(),
{
    if list.len() == 0 || precedes(x, list[0]) {
        seq![x] + list
    } else if list[0] == x {
        list
    } else {
        seq![list[0]] + placed(list.drop_first(), x)
    }
}

/// The members of `s` in order, each once.
pub open spec fn sorted_distinct(s: Seq<Seq<char>>) -> Seq<Seq<char>>
    decreases s.len(),
{
    if s.len() == 0 {
        Seq::empty()
    } else {
        placed(sorted_distinct(s.drop_last()), s.last())
    }
}

/// Whether each text of `s` comes before the next ones.
pub open spec fn increasing(s: Seq<Seq<char>>) -> bool {
    forall|i: int, j: int| 0 <= i < j < s.len() ==> precedes(#[trigger] s[i], #[trigger] s[j])
}

/// Putting a text in its place keeps a list in order and adds that text alone.
proof fn lemma_placed(list: Seq<Seq<char>>, x: Seq<char>)
    requires
        increasing(list),
    ensures
        increasing(placed(list, x)),
        forall|y: Seq<char>| #[trigger]
            placed(list, x).contains(y) <==> (list.contains(y) || y == x),
    decreases list.len(),
{
    let out = placed(list, x);
    if list.len() == 0 || precedes(x, list[0]) {
        assert forall|i: int, j: int| 0 <= i < j < out.len() implies precedes(
            #[trigger] out[i],
            #[trigger] out[j],
        ) by {
            assert(out[j] == list[j - 1]);
            if i == 0 {
                if j > 1 {
                    law_precedes_transitive(x, list[0], list[j - 1]);
                }
            } else {
                assert(out[i] == list[i - 1]);
            }
        }
        assert forall|y: Seq<char>| #[trigger] out.contains(y) <==> (list.contains(y) || y == x) by {
            if list.contains(y) {
                let k = list.index_of(y);
                assert(out[k + 1] == y);
            }
            if y == x {
                assert(out[0] == y);
            }
            if out.contains(y) {
                let k = out.index_of(y);
                if k > 0 {
                    assert(list[k - 1] == y);
                }
            }
        }
    } else if list[0] == x {
        assert(list.contains(x));
    } else {
        let rest = list.drop_first();
        assert forall|i: int, j: int| 0 <= i < j < rest.len() implies precedes(
            #[trigger] rest[i],
            #[trigger] rest[j],
        ) by {
            assert(rest[i] == list[i + 1] && rest[j] == list[j + 1]);
        }
        lemma_placed(rest, x);
        let tail = placed(rest, x);
        law_precedes_total(x, list[0]);
        assert forall|i: int, j: int| 0 <= i < j < out.len() implies precedes(
            #[trigger] out[i],
            #[trigger] out[j],
        ) by {
            assert(out[j] == tail[j - 1]);
            if i == 0 {
                assert(tail.contains(tail[j - 1]));
                if rest.contains(tail[j - 1]) {
                    let k = rest.index_of(tail[j - 1]);
                    assert(list[k + 1] == tail[j - 1]);
                }
            } else {
                assert(out[i] == tail[i - 1]);
            }
        }
        assert forall|y: Seq<char>| #[trigger] out.contains(y) <==> (list.contains(y) || y == x) by {
            if out.contains(y) {
                let k = out.index_of(y);
                if k > 0 {
                    assert(tail[k - 1] == y);
                    assert(tail.contains(y));
                    if rest.contains(y) {
                        assert(list[rest.index_of(y) + 1] == y);
                    }
                } else {
                    assert(list[0] == y);
                }
            }
            if list.contains(y) {
                let k = list.index_of(y);
                if k > 0 {
                    assert(rest[k - 1] == y);
                    assert(tail.contains(y));
                    assert(out[tail.index_of(y) + 1] == y);
                } else {
                    assert(out[0] == y);
                }
            }
            if y == x {
                assert(tail.contains(y));
                assert(out[tail.index_of(y) + 1] == y);
            }
        }
    }
}

/// A list put in order holds what it held before, each text once, in rising order.
pub proof fn law_sorted_distinct(s: Seq<Seq<char>>)
    ensures
        increasing(sorted_distinct(s)),
        sorted_distinct(s).no_duplicates(),
        forall|y: Seq<char>| #[trigger] sorted_distinct(s).contains(y) <==> s.contains(y),
    decreases s.len(),
{
    if s.len() > 0 {
        law_sorted_distinct(s.drop_last());
        lemma_placed(sorted_distinct(s.drop_last()), s.last());
        assert forall|y: Seq<char>| #[trigger]
            sorted_distinct(s).contains(y) <==> s.contains(y) by {
            if s.contains(y) {
                let k = s.index_of(y);
                if k < s.len() - 1 {
                    assert(s.drop_last()[k] == y);
                }
            }
            if s.drop_last().contains(y) {
                assert(s[s.drop_last().index_of(y)] == y);
            }
            assert(s[s.len() - 1] == s.last());
        }
    }
    let out = sorted_distinct(s);
    assert forall|i: int, j: int| 0 <= i < out.len() && 0 <= j < out.len() && i != j implies out[i]
        != out[j] by {
        law_precedes_irreflexive(out[i]);
        if i < j {
            assert(precedes(out[i], out[j]));
        } else {
            assert(precedes(out[j], out[i]));
        }
    }
}

/// Puts `x` in its place in `list`.
pub fn place(list: &mut Vec<String>, x: &str)
    ensures
        texts(final(list)@) == placed(texts(old(list)@), x@),
{
    let ghost all = texts(list@);
    let mut i: usize = 0;
    proof {
        assert(all.skip(0) =~= all);
        assert(all.take(0) + placed(all, x@) =~= placed(all, x@));
    }
    while i < list.len() && !comes_before(x, list[i].as_str()) && !same(list[i].as_str(), x)
        invariant
            i <= list@.len(),
            all == texts(list@),
            placed(all, x@) == all.take(i as int) + placed(all.skip(i as int), x@),
        decreases list@.len() - i,
    {
        proof {
            let rest = all.skip(i as int);
            assert(rest.drop_first() =~= all.skip(i + 1));
            assert(all.take(i as int) + (seq![rest[0]] + placed(all.skip(i + 1), x@))
                =~= all.take(i + 1) + placed(all.skip(i + 1), x@));
        }
        i += 1;
    }
    let ghost rest = all.skip(i as int);
    if i < list.len() && same(list[i].as_str(), x) {
        proof {
            law_precedes_irreflexive(x@);
            assert(all.take(i as int) + rest =~= all);
        }
        return;
    }
    let ghost before = list@;
    list.insert(i, x.to_owned());
    proof {
        assert(texts(list@) =~= all.take(i as int) + (seq![x@] + rest));
    }
}

/// The members of `list` in order, each once.
pub fn sort_distinct(list: &Vec<String>) -> (r: Vec<String>)
    ensures
        texts(r@) == sorted_distinct(texts(list@)),
{
    let ghost all = texts(list@);
    let mut out: Vec<String> = Vec::new();
    let mut i: usize = 0;
    proof {
        assert(all.take(0) =~= Seq::empty());
        assert(texts(out@) =~= Seq::empty());
    }
    while i < list.len()
        invariant
            i <= list@.len(),
            all == texts(list@),
            texts(out@) == sorted_distinct(all.take(i as int)),
        decreases list@.len() - i,
    {
        proof {
            assert(all.take(i + 1).drop_last() =~= all.take(i as int));
        }
        place(&mut out, list[i].as_str());
        i += 1;
    }
    proof {
        assert(all.take(i as int) =~= all);
    }
    out
}

/// Two texts are ordered by the first character in which they differ, and a text comes before all
/// that it is the start of.
pub proof fn law_order_of_texts(start: Seq<char>, x: char, a: Seq<char>, y: char, b: Seq<char>)
    ensures
        x != y ==> (precedes(start + seq![x] + a, start + seq![y] + b) <==> (x as u32) < (y
            as u32)),
        precedes(start, start + seq![x] + a),
        !precedes(start + seq![x] + a, start),
    decreases start.len(),
{
    let p = start + seq![x] + a;
    let q = start + seq![y] + b;
    if start.len() > 0 {
        let less = start.drop_first();
        law_order_of_texts(less, x, a, y, b);
        assert(p.drop_first() =~= less + seq![x] + a);
        assert(q.drop_first() =~= less + seq![y] + b);
    }
}

} // verus!
