//! Counting how often each text occurs in a list.
use crate::json::{field, object_view, put, text_at, Json, JsonView};
use crate::order::{law_sorted_distinct, sort_distinct, sorted_distinct};
use crate::text::{same, texts};
use vstd::prelude::*;
use vstd::string::*;

verus! {

/// How often `x` occurs in `list`.
pub open spec fn times(list: Seq<Seq<char>>, x: Seq<char>) -> nat
    decreases list.len(),
{
    if list.len() == 0 {
        0
    } else if list.last() == x {
        times(list.drop_last(), x) + 1
    } else {
        times(list.drop_last(), x)
    }
}

/// How often each text of `list` occurs in it.
pub open spec fn tally_of(list: Seq<Seq<char>>) -> Map<Seq<char>, JsonView> {
    Map::new(|x: Seq<char>| list.contains(x), |x: Seq<char>| JsonView::Int(times(list, x) as int))
}

/// How often `x` occurs in `list`.
fn count(list: &Vec<String>, x: &str) -> (r: usize)
    ensures
        r == times(texts(list@), x@),
{
    let ghost all = texts(list@);
    let mut n: usize = 0;
    let mut i: usize = 0;
    proof {
        assert(all.take(0) =~= Seq::empty());
    }
    while i < list.len()
        invariant
            i <= list@.len(),
            all == texts(list@),
            n <= i,
            n == times(all.take(i as int), x@),
        decreases list@.len() - i,
    {
        proof {
            assert(all.take(i + 1).drop_last() =~= all.take(i as int));
            assert(all.take(i + 1).last() == list@[i as int]@);
        }
        if same(list[i].as_str(), x) {
            n += 1;
        }
        i += 1;
    }
    proof {
        assert(all.take(i as int) =~= all);
    }
    n
}

/// How often each text of `list` occurs in it, as an object.
pub fn tally(list: &Vec<String>) -> (r: Json)
    ensures
        r@ == JsonView::Object(tally_of(texts(list@))),
{
    let keys = sort_distinct(list);
    let ghost all = texts(list@);
    let ghost names = texts(keys@);
    let mut fields: Vec<(String, Json)> = Vec::new();
    let mut i: usize = 0;
    while i < keys.len()
        invariant
            i <= keys@.len(),
            all == texts(list@),
            names == texts(keys@),
            object_view(fields@) == Map::new(
                |x: Seq<char>| names.take(i as int).contains(x),
                |x: Seq<char>| JsonView::Int(times(all, x) as int),
            ),
        decreases keys@.len() - i,
    {
        let key = keys[i].as_str();
        let n = count(list, key);
        put(&mut fields, key, Json::Int(n as i128));
        proof {
            let before = names.take(i as int);
            let after = names.take(i + 1);
            assert(after =~= before.push(key@));
            assert forall|x: Seq<char>| #[trigger] after.contains(x) <==> before.contains(x) || x
                == key@ by {
                if before.contains(x) {
                    assert(after[before.index_of(x)] == x);
                }
                if x == key@ {
                    assert(after[i as int] == x);
                }
                if after.contains(x) {
                    let k = after.index_of(x);
                    if k < before.len() {
                        assert(before[k] == x);
                    }
                }
            }
            assert(object_view(fields@) =~= Map::new(
                |x: Seq<char>| after.contains(x),
                |x: Seq<char>| JsonView::Int(times(all, x) as int),
            ));
        }
        i += 1;
    }
    proof {
        assert(names.take(i as int) =~= names);
        law_sorted_distinct(all);
        assert(object_view(fields@) =~= tally_of(all));
    }
    Json::Object(fields)
}

/// The sum of how often each of `names` occurs in `list`.
pub open spec fn total(names: Seq<Seq<char>>, list: Seq<Seq<char>>) -> nat
    decreases names.len(),
{
    if names.len() == 0 {
        0
    } else {
        total(names.drop_last(), list) + times(list, names.last())
    }
}

/// One more text adds one to the sum, where the names hold it once.
proof fn lemma_total_step(names: Seq<Seq<char>>, list: Seq<Seq<char>>)
    requires
        names.no_duplicates(),
        list.len() > 0,
    ensures
        total(names, list) == total(names, list.drop_last()) + if names.contains(list.last()) {
            1nat
        } else {
            0
        },
    decreases names.len(),
{
    if names.len() > 0 {
        let rest = names.drop_last();
        assert(rest.no_duplicates());
        lemma_total_step(rest, list);
        let x = list.last();
        if names.contains(x) {
            let k = names.index_of(x);
            if k < rest.len() {
                assert(rest[k] == x);
                assert(names[names.len() - 1] != x);
            } else if rest.contains(x) {
                assert(names[rest.index_of(x)] == x);
            }
        } else {
            if rest.contains(x) {
                assert(names[rest.index_of(x)] == x);
            }
            assert(names[names.len() - 1] != x);
        }
    }
}

/// Names that occur in nothing add up to nothing.
proof fn lemma_total_empty(names: Seq<Seq<char>>, list: Seq<Seq<char>>)
    requires
        list.len() == 0,
    ensures
        total(names, list) == 0,
    decreases names.len(),
{
    if names.len() > 0 {
        lemma_total_empty(names.drop_last(), list);
    }
}

/// Names that cover a list add up to its length.
proof fn lemma_total(names: Seq<Seq<char>>, list: Seq<Seq<char>>)
    requires
        names.no_duplicates(),
        forall|i: int| 0 <= i < list.len() ==> names.contains(#[trigger] list[i]),
    ensures
        total(names, list) == list.len(),
    decreases list.len(),
{
    if list.len() == 0 {
        lemma_total_empty(names, list);
    } else {
        let rest = list.drop_last();
        assert forall|i: int| 0 <= i < rest.len() implies names.contains(#[trigger] rest[i]) by {
            assert(rest[i] == list[i]);
        }
        lemma_total(names, rest);
        assert(names.contains(list[list.len() - 1]));
        lemma_total_step(names, list);
    }
}

/// The counts of a tally add up to the length of the list that was counted.
pub proof fn law_tally_adds_up(list: Seq<Seq<char>>)
    ensures
        total(sorted_distinct(list), list) == list.len(),
        forall|x: Seq<char>| #[trigger]
            tally_of(list).dom().contains(x) <==> sorted_distinct(list).contains(x),
{
    law_sorted_distinct(list);
    assert forall|i: int| 0 <= i < list.len() implies sorted_distinct(list).contains(
        #[trigger] list[i],
    ) by {
        assert(list.contains(list[i]));
    }
    lemma_total(sorted_distinct(list), list);
}

proof fn lemma_times(list: Seq<Seq<char>>, x: Seq<char>)
    ensures
        times(list, x) == list.to_multiset().count(x),
    decreases list.len(),
{
    broadcast use vstd::seq_lib::group_to_multiset_ensures;

    if list.len() > 0 {
        lemma_times(list.drop_last(), x);
        assert(list.drop_last().push(list.last()) =~= list);
    }
}

/// A tally has a count for each text of the list and for no other, and the count is the number of
/// times that the text is in the list.
pub proof fn law_tally_counts(list: Seq<Seq<char>>, x: Seq<char>)
    ensures
        tally_of(list).dom().contains(x) <==> list.contains(x),
        list.contains(x) ==> tally_of(list)[x] == JsonView::Int(
            list.to_multiset().count(x) as int,
        ),
{
    lemma_times(list, x);
}

/// The texts of one field of each item.
pub open spec fn labels_of(items: Seq<JsonView>, name: Seq<char>) -> Seq<Seq<char>> {
    items.map_values(|item: JsonView| text_at(item, name))
}

/// Whether an object tells of `x` how many of `labels` it is, and nothing where it is none of them.
pub open spec fn tells_count(
    counts: Option<JsonView>,
    labels: Seq<Seq<char>>,
    x: Seq<char>,
) -> bool {
    counts matches Some(object) && object is Object && field(object, x) == if labels.contains(x) {
        Some(JsonView::Int(labels.to_multiset().count(x) as int))
    } else {
        None
    }
}

/// A tally tells of every text how often it is in the list.
pub proof fn law_tally_tells_counts(list: Seq<Seq<char>>, x: Seq<char>)
    ensures
        tells_count(Some(JsonView::Object(tally_of(list))), list, x),
{
    law_tally_counts(list, x);
}

} // verus!
