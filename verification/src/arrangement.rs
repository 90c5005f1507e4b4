//! Rearrangements: facts about sequences that hold the same elements in
//! another order.

use vstd::prelude::*;
use vstd::seq_lib::{
    to_multiset_build, to_multiset_contains, to_multiset_insert, to_multiset_len,
    to_multiset_remove,
};

verus! {

/// Whether `a` holds the elements of `b`, each as often, in any order.
pub open spec fn is_rearrangement<A>(a: Seq<A>, b: Seq<A>) -> bool {
    a.to_multiset() == b.to_multiset()
}

/// Whether no two elements of `list` have the same key.
pub open spec fn distinct_by<A, K>(list: Seq<A>, key: spec_fn(A) -> K) -> bool {
    forall|i: int, j: int|
        0 <= i < j < list.len() ==> key(#[trigger] list[i]) != key(#[trigger] list[j])
}

/// Taking the last element away takes it out of the multiset.
pub proof fn lemma_drop_last_multiset<A>(list: Seq<A>)
    requires
        list.len() > 0,
    ensures
        list.drop_last().to_multiset() == list.to_multiset().remove(list.last()),
{
    assert(list.drop_last() =~= list.remove(list.len() - 1));
    to_multiset_remove(list, list.len() - 1);
}

/// Taking one element away leaves distinct keys distinct.
pub proof fn lemma_remove_keeps_distinct<A, K>(list: Seq<A>, key: spec_fn(A) -> K, at: int)
    requires
        distinct_by(list, key),
        0 <= at < list.len(),
    ensures
        distinct_by(list.remove(at), key),
{
    let rest = list.remove(at);
    assert forall|a: int, b: int| 0 <= a < b < rest.len() implies key(#[trigger] rest[a]) != key(
        #[trigger] rest[b],
    ) by {
        let from_a = if a < at {
            a
        } else {
            a + 1
        };
        let from_b = if b < at {
            b
        } else {
            b + 1
        };
        assert(rest[a] == list[from_a]);
        assert(rest[b] == list[from_b]);
    }
}

/// Keys that are distinct in one arrangement are distinct in every
/// rearrangement.
pub proof fn lemma_rearrangement_stays_distinct<A, K>(
    list: Seq<A>,
    source: Seq<A>,
    key: spec_fn(A) -> K,
)
    requires
        is_rearrangement(list, source),
        distinct_by(source, key),
    ensures
        distinct_by(list, key),
    decreases list.len(),
{
    to_multiset_len(list);
    to_multiset_len(source);
    if list.len() > 0 {
        let last = list.last();
        assert(list[list.len() - 1] == last);
        assert(list.contains(last));
        to_multiset_contains(list, last);
        to_multiset_contains(source, last);
        let at = choose|at: int| 0 <= at < source.len() && source[at] == last;
        let rest = source.remove(at);
        let front = list.drop_last();
        lemma_drop_last_multiset(list);
        to_multiset_remove(source, at);
        lemma_remove_keeps_distinct(source, key, at);
        lemma_rearrangement_stays_distinct(front, rest, key);
        assert forall|a: int, b: int| 0 <= a < b < list.len() implies key(#[trigger] list[a])
            != key(#[trigger] list[b]) by {
            assert(front[a] == list[a]);
            if b < front.len() {
                assert(front[b] == list[b]);
            } else {
                assert(front.contains(list[a]));
                to_multiset_contains(front, list[a]);
                to_multiset_contains(rest, list[a]);
                let p = choose|p: int| 0 <= p < rest.len() && rest[p] == list[a];
                let q = if p < at {
                    p
                } else {
                    p + 1
                };
                assert(source[q] == list[a]);
                if q < at {
                    assert(key(source[q]) != key(source[at]));
                } else {
                    assert(key(source[at]) != key(source[q]));
                }
            }
        }
    }
}

/// Mapping two arrangements of the same elements gives two arrangements
/// of the same images.
pub proof fn lemma_mapped_rearrangement<A, B>(a: Seq<A>, b: Seq<A>, f: spec_fn(A) -> B)
    requires
        is_rearrangement(a, b),
    ensures
        is_rearrangement(a.map_values(f), b.map_values(f)),
    decreases a.len(),
{
    to_multiset_len(a);
    to_multiset_len(b);
    if a.len() == 0 {
        assert(a.map_values(f) =~= b.map_values(f));
    } else {
        let last = a.last();
        assert(a[a.len() - 1] == last);
        assert(a.contains(last));
        to_multiset_contains(a, last);
        to_multiset_contains(b, last);
        let at = choose|at: int| 0 <= at < b.len() && b[at] == last;
        let front = a.drop_last();
        let rest = b.remove(at);
        lemma_drop_last_multiset(a);
        to_multiset_remove(b, at);
        lemma_mapped_rearrangement(front, rest, f);
        assert(a.map_values(f) =~= front.map_values(f).push(f(last)));
        assert(b.map_values(f) =~= rest.map_values(f).insert(at, f(last)));
        to_multiset_build(front.map_values(f), f(last));
        to_multiset_insert(rest.map_values(f), at, f(last));
    }
}

} // verus!
