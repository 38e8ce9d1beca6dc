//! A stable sort.

use vstd::prelude::*;
use vstd::multiset::Multiset;

use crate::text::{
    comes_before, lemma_lex_asymmetric, lemma_lex_total, lemma_lex_transitive, lex_less,
};

verus! {

/// A type whose values have an order in which they are listed.
pub trait Ranked: Sized {
    /// Whether `self` is listed before `other`. Values that neither precede nor
    /// follow each other have the same rank.
    spec fn precedes(self, other: Self) -> bool;

    /// Whether `self` is listed before `other`.
    fn ranks_before(&self, other: &Self) -> (before: bool)
        ensures
            before == self.precedes(*other),
    ;

    /// No two values precede each other.
    proof fn precedes_is_asymmetric(a: Self, b: Self)
        requires
            a.precedes(b),
        ensures
            !b.precedes(a),
    ;

    /// Whatever stands between two ranks is apart from one of them.
    proof fn precedes_has_no_gaps(a: Self, b: Self, c: Self)
        requires
            a.precedes(c),
        ensures
            a.precedes(b) || b.precedes(c),
    ;
}

/// `item` put into `sorted` before the first value that does not precede it.
pub open spec fn placed<T: Ranked>(item: T, sorted: Seq<T>) -> Seq<T>
    decreases sorted.len(),
{
    if sorted.len() > 0 && sorted[0].precedes(item) {
        seq![sorted[0]] + placed(item, sorted.skip(1))
    } else {
        seq![item] + sorted
    }
}

/// The items in their order, those of the same rank as they came.
pub open spec fn stable_sorted<T: Ranked>(items: Seq<T>) -> Seq<T>
    decreases items.len(),
{
    if items.len() == 0 {
        Seq::empty()
    } else {
        placed(items[0], stable_sorted(items.skip(1)))
    }
}

/// Whether nothing stands behind a value that it precedes.
pub open spec fn in_order<T: Ranked>(items: Seq<T>) -> bool {
    forall|i: int, j: int|
        0 <= i < j < items.len() ==> !(#[trigger] items[j]).precedes(#[trigger] items[i])
}

proof fn lemma_placed<T: Ranked>(item: T, sorted: Seq<T>)
    ensures
        placed(item, sorted).to_multiset() == sorted.to_multiset().insert(item),
        placed(item, sorted).len() == sorted.len() + 1,
        in_order(sorted) ==> in_order(placed(item, sorted)),
        forall|k: int|
            0 <= k < placed(item, sorted).len() ==> (#[trigger] placed(item, sorted)[k] == item
                || sorted.contains(placed(item, sorted)[k])),
    decreases sorted.len(),
{
    broadcast use vstd::seq_lib::group_to_multiset_ensures;

    let result = placed(item, sorted);
    if sorted.len() > 0 && sorted[0].precedes(item) {
        let head = sorted[0];
        let rest = sorted.skip(1);
        let tail = placed(item, rest);
        lemma_placed(item, rest);
        assert(sorted =~= seq![head] + rest);
        assert(sorted.to_multiset() =~= rest.to_multiset().insert(head)) by {
            lemma_front(head, rest);
        }
        assert(result.to_multiset() =~= tail.to_multiset().insert(head)) by {
            lemma_front(head, tail);
        }
        assert(result.to_multiset() =~= sorted.to_multiset().insert(item));
        if in_order(sorted) {
            assert(in_order(rest)) by {
                assert forall|i: int, j: int| 0 <= i < j < rest.len() implies !(
                #[trigger] rest[j]).precedes(#[trigger] rest[i]) by {
                    assert(!sorted[j + 1].precedes(sorted[i + 1]));
                }
            }
            assert forall|i: int, j: int| 0 <= i < j < result.len() implies !(
            #[trigger] result[j]).precedes(#[trigger] result[i]) by {
                if i > 0 {
                    assert(!tail[j - 1].precedes(tail[i - 1]));
                } else {
                    let other = tail[j - 1];
                    if other == item {
                        T::precedes_is_asymmetric(head, item);
                    } else {
                        assert(rest.contains(other));
                        let k = choose|k: int| 0 <= k < rest.len() && rest[k] == other;
                        assert(!sorted[k + 1].precedes(sorted[0]));
                    }
                }
            }
        }
        assert forall|k: int| 0 <= k < result.len() implies (#[trigger] result[k] == item
            || sorted.contains(result[k])) by {
            if k == 0 {
                assert(sorted[0] == result[0]);
            } else {
                assert(tail[k - 1] == result[k]);
                if tail[k - 1] != item {
                    assert(rest.contains(tail[k - 1]));
                    let m = choose|m: int| 0 <= m < rest.len() && rest[m] == tail[k - 1];
                    assert(sorted[m + 1] == result[k]);
                }
            }
        }
    } else {
        lemma_front(item, sorted);
        if in_order(sorted) {
            assert forall|i: int, j: int| 0 <= i < j < result.len() implies !(
            #[trigger] result[j]).precedes(#[trigger] result[i]) by {
                if i > 0 {
                    assert(!sorted[j - 1].precedes(sorted[i - 1]));
                } else {
                    let other = sorted[j - 1];
                    if other.precedes(item) {
                        if j > 1 {
                            T::precedes_has_no_gaps(other, sorted[0], item);
                            assert(!sorted[j - 1].precedes(sorted[0]));
                        }
                    }
                }
            }
        }
        assert forall|k: int| 0 <= k < result.len() implies (#[trigger] result[k] == item
            || sorted.contains(result[k])) by {
            if k > 0 {
                assert(sorted[k - 1] == result[k]);
            }
        }
    }
}

proof fn lemma_front<T>(item: T, rest: Seq<T>)
    ensures
        (seq![item] + rest).to_multiset() == rest.to_multiset().insert(item),
{
    broadcast use vstd::seq_lib::group_to_multiset_ensures;

    vstd::seq_lib::lemma_multiset_commutative(seq![item], rest);
    assert(Seq::<T>::empty().push(item) =~= seq![item]);
    assert(seq![item].to_multiset() =~= Multiset::<T>::empty().insert(item));
    assert((seq![item] + rest).to_multiset() =~= rest.to_multiset().insert(item));
}

/// A sort loses nothing, adds nothing and leaves the items in order.
pub proof fn law_sorting_orders_the_same_items<T: Ranked>(items: Seq<T>)
    ensures
        stable_sorted(items).to_multiset() == items.to_multiset(),
        stable_sorted(items).len() == items.len(),
        in_order(stable_sorted(items)),
    decreases items.len(),
{
    broadcast use vstd::seq_lib::group_to_multiset_ensures;

    if items.len() > 0 {
        let rest = items.skip(1);
        law_sorting_orders_the_same_items(rest);
        lemma_placed(items[0], stable_sorted(rest));
        lemma_front(items[0], rest);
        assert(items =~= seq![items[0]] + rest);
    }
}

/// Where `placed` puts an item.
proof fn lemma_place<T: Ranked>(item: T, sorted: Seq<T>, at: int)
    requires
        0 <= at <= sorted.len(),
        forall|i: int| 0 <= i < at ==> (#[trigger] sorted[i]).precedes(item),
        at < sorted.len() ==> !sorted[at].precedes(item),
    ensures
        placed(item, sorted) == sorted.insert(at, item),
    decreases at,
{
    if at > 0 {
        assert(sorted[0].precedes(item));
        lemma_place(item, sorted.skip(1), at - 1);
        assert(seq![sorted[0]] + sorted.skip(1).insert(at - 1, item) =~= sorted.insert(at, item));
    } else {
        assert(seq![item] + sorted =~= sorted.insert(0, item));
    }
}

/// The items in their order, those of the same rank as they came.
pub fn sort<T: Ranked>(items: Vec<T>) -> (sorted: Vec<T>)
    ensures
        sorted@ == stable_sorted(items@),
{
    let ghost all = items@;
    let mut left: Vec<T> = items;
    let mut sorted: Vec<T> = Vec::new();
    assert(all.skip(all.len() as int) =~= Seq::empty());
    assert(all.take(all.len() as int) =~= all);
    loop
        invariant
            left@.len() <= all.len(),
            left@ == all.take(left@.len() as int),
            sorted@ == stable_sorted(all.skip(left@.len() as int)),
        ensures
            sorted@ == stable_sorted(all),
        decreases left@.len(),
    {
        match left.pop() {
            None => {
                assert(all.skip(0) =~= all);
                break ;
            },
            Some(item) => {
                let ghost n: int = left@.len() as int;
                assert(item == all[n]);
                assert(left@ =~= all.take(n));
                let mut at: usize = 0;
                while at < sorted.len() && sorted[at].ranks_before(&item)
                    invariant
                        at <= sorted@.len(),
                        forall|i: int| 0 <= i < at ==> (#[trigger] sorted@[i]).precedes(item),
                    decreases sorted@.len() - at,
                {
                    at += 1;
                }
                proof {
                    lemma_place(item, sorted@, at as int);
                    assert(all.skip(n)[0] == item);
                    assert(all.skip(n).skip(1) =~= all.skip(n + 1));
                }
                sorted.insert(at, item);
            },
        }
    }
    sorted
}

impl Ranked for String {
    open spec fn precedes(self, other: Self) -> bool {
        lex_less(self@, other@)
    }

    fn ranks_before(&self, other: &Self) -> (before: bool) {
        comes_before(self.as_str(), other.as_str())
    }

    proof fn precedes_is_asymmetric(a: Self, b: Self) {
        lemma_lex_asymmetric(a@, b@);
    }

    proof fn precedes_has_no_gaps(a: Self, b: Self, c: Self) {
        lemma_lex_no_gaps(a@, b@, c@);
    }
}

/// Whatever stands between two texts is apart from one of them.
pub proof fn lemma_lex_no_gaps(a: Seq<char>, b: Seq<char>, c: Seq<char>)
    requires
        lex_less(a, c),
    ensures
        lex_less(a, b) || lex_less(b, c),
{
    if !lex_less(a, b) && a != b {
        lemma_lex_total(a, b);
        lemma_lex_transitive(b, a, c);
    }
}

/// Whether two items have the same rank.
pub open spec fn alike<T: Ranked>(a: T, b: T) -> bool {
    !a.precedes(b) && !b.precedes(a)
}

/// The items of a list that have the rank of a given one, in their order.
pub open spec fn of_rank<T: Ranked>(items: Seq<T>, rank: T) -> Seq<T>
    decreases items.len(),
{
    if items.len() == 0 {
        Seq::empty()
    } else if alike(items[0], rank) {
        seq![items[0]] + of_rank(items.skip(1), rank)
    } else {
        of_rank(items.skip(1), rank)
    }
}

proof fn lemma_placed_rank<T: Ranked>(item: T, sorted: Seq<T>, rank: T)
    ensures
        of_rank(placed(item, sorted), rank) == (if alike(item, rank) {
            seq![item] + of_rank(sorted, rank)
        } else {
            of_rank(sorted, rank)
        }),
    decreases sorted.len(),
{
    let all = placed(item, sorted);
    if sorted.len() > 0 && sorted[0].precedes(item) {
        let rest = sorted.skip(1);
        lemma_placed_rank(item, rest, rank);
        assert(all[0] == sorted[0]);
        assert(all.skip(1) =~= placed(item, rest));
        if alike(item, rank) {
            T::precedes_has_no_gaps(sorted[0], rank, item);
            assert(!alike(sorted[0], rank));
        }
    } else {
        assert(all[0] == item);
        assert(all.skip(1) =~= sorted);
    }
}

/// A sort leaves items of one rank in the order they had.
pub proof fn law_a_sort_is_stable<T: Ranked>(items: Seq<T>, rank: T)
    ensures
        of_rank(stable_sorted(items), rank) == of_rank(items, rank),
    decreases items.len(),
{
    if items.len() > 0 {
        law_a_sort_is_stable(items.skip(1), rank);
        lemma_placed_rank(items[0], stable_sorted(items.skip(1)), rank);
    }
}

} // verus!
