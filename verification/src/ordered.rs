//! A map from texts to values that keeps its keys in order.

use vstd::prelude::*;

use crate::text::{
    comes_before, lemma_lex_irreflexive, lemma_lex_total, lemma_lex_transitive,
    lex_less, same_text,
};

verus! {

/// A map from texts to values. The entries stand in the order of their keys.
#[derive(Debug)]
pub struct OrderedMap<V> {
    /// The entries, by ascending key.
    pub entries: Vec<(String, V)>,
}

/// Whether the keys ascend strictly.
pub open spec fn ascending<V>(entries: Seq<(String, V)>) -> bool {
    forall|i: int, j: int|
        0 <= i < j < entries.len() ==> lex_less(
            #[trigger] entries[i].0@,
            #[trigger] entries[j].0@,
        )
}

/// Whether some entry has the key `key`.
pub open spec fn has_key<V>(entries: Seq<(String, V)>, key: Seq<char>) -> bool {
    exists|i: int| 0 <= i < entries.len() && #[trigger] entries[i].0@ == key
}

/// The position of the entry with the key `key`.
pub open spec fn place_of<V>(entries: Seq<(String, V)>, key: Seq<char>) -> int {
    choose|i: int| 0 <= i < entries.len() && #[trigger] entries[i].0@ == key
}

/// The map that the entries spell.
pub open spec fn as_map<V>(entries: Seq<(String, V)>) -> Map<Seq<char>, V> {
    Map::new(|k: Seq<char>| has_key(entries, k), |k: Seq<char>| entries[place_of(entries, k)].1)
}

impl<V> View for OrderedMap<V> {
    type V = Map<Seq<char>, V>;

    open spec fn view(&self) -> Map<Seq<char>, V> {
        as_map(self.entries@)
    }
}

/// In ascending entries a key has one place.
pub proof fn lemma_place<V>(entries: Seq<(String, V)>, i: int)
    requires
        ascending(entries),
        0 <= i < entries.len(),
    ensures
        has_key(entries, entries[i].0@),
        place_of(entries, entries[i].0@) == i,
        as_map(entries).dom().contains(entries[i].0@),
        as_map(entries)[entries[i].0@] == entries[i].1,
{
    let key = entries[i].0@;
    assert(has_key(entries, key));
    let p = place_of(entries, key);
    assert(0 <= p < entries.len() && entries[p].0@ == key);
    if p < i {
        lemma_lex_irreflexive(key);
        assert(lex_less(entries[p].0@, entries[i].0@));
    } else if i < p {
        lemma_lex_irreflexive(key);
        assert(lex_less(entries[i].0@, entries[p].0@));
    }
}

/// What replacing the value of one entry does to the map.
proof fn lemma_update<V>(entries: Seq<(String, V)>, i: int, entry: (String, V))
    requires
        ascending(entries),
        0 <= i < entries.len(),
        entry.0@ == entries[i].0@,
    ensures
        ascending(entries.update(i, entry)),
        as_map(entries.update(i, entry)) == as_map(entries).insert(entry.0@, entry.1),
{
    let next = entries.update(i, entry);
    assert forall|a: int, b: int| 0 <= a < b < next.len() implies lex_less(
        #[trigger] next[a].0@,
        #[trigger] next[b].0@,
    ) by {
        assert(lex_less(entries[a].0@, entries[b].0@));
    }
    let left = as_map(next);
    let right = as_map(entries).insert(entry.0@, entry.1);
    assert forall|k: Seq<char>| left.dom().contains(k) == right.dom().contains(k) by {
        if has_key(next, k) {
            let p = place_of(next, k);
            lemma_place(entries, p);
        }
        if has_key(entries, k) {
            let p = place_of(entries, k);
            lemma_place(next, p);
        }
        lemma_place(next, i);
    }
    assert forall|k: Seq<char>| left.dom().contains(k) implies left[k] == right[k] by {
        let p = place_of(next, k);
        lemma_place(next, p);
        lemma_place(entries, p);
        lemma_place(next, i);
    }
    assert(left =~= right);
}

/// What a new entry at its place does to the map.
proof fn lemma_insert<V>(entries: Seq<(String, V)>, i: int, entry: (String, V))
    requires
        ascending(entries),
        0 <= i <= entries.len(),
        forall|j: int| 0 <= j < i ==> lex_less(#[trigger] entries[j].0@, entry.0@),
        forall|j: int| i <= j < entries.len() ==> lex_less(entry.0@, #[trigger] entries[j].0@),
    ensures
        ascending(entries.insert(i, entry)),
        as_map(entries.insert(i, entry)) == as_map(entries).insert(entry.0@, entry.1),
        !has_key(entries, entry.0@),
{
    let next = entries.insert(i, entry);
    assert forall|a: int, b: int| 0 <= a < b < next.len() implies lex_less(
        #[trigger] next[a].0@,
        #[trigger] next[b].0@,
    ) by {
        let a0 = if a < i { a } else { a - 1 };
        let b0 = if b < i { b } else { b - 1 };
        if a != i && b != i {
            assert(next[a] == entries[a0]);
            assert(next[b] == entries[b0]);
            assert(lex_less(entries[a0].0@, entries[b0].0@));
        } else if a == i {
            assert(next[b] == entries[b - 1]);
        } else {
            assert(next[a] == entries[a]);
        }
    }
    if has_key(entries, entry.0@) {
        let p = place_of(entries, entry.0@);
        lemma_lex_irreflexive(entry.0@);
        if p < i {
            assert(lex_less(entries[p].0@, entry.0@));
        } else {
            assert(lex_less(entry.0@, entries[p].0@));
        }
    }
    let left = as_map(next);
    let right = as_map(entries).insert(entry.0@, entry.1);
    assert(next[i] == entry);
    lemma_place(next, i);
    assert forall|k: Seq<char>| left.dom().contains(k) == right.dom().contains(k) by {
        if has_key(next, k) {
            let p = place_of(next, k);
            if p != i {
                let q = if p < i { p } else { p - 1 };
                assert(next[p] == entries[q]);
                lemma_place(entries, q);
            }
        }
        if has_key(entries, k) {
            let p = place_of(entries, k);
            let q = if p < i { p } else { p + 1 };
            assert(next[q] == entries[p]);
            lemma_place(next, q);
        }
    }
    assert forall|k: Seq<char>| left.dom().contains(k) implies left[k] == right[k] by {
        let p = place_of(next, k);
        lemma_place(next, p);
        if p != i {
            let q = if p < i { p } else { p - 1 };
            assert(next[p] == entries[q]);
            lemma_place(entries, q);
        }
    }
    assert(left =~= right);
}

/// What taking an entry out does to the map.
proof fn lemma_remove<V>(entries: Seq<(String, V)>, i: int)
    requires
        ascending(entries),
        0 <= i < entries.len(),
    ensures
        ascending(entries.remove(i)),
        as_map(entries.remove(i)) == as_map(entries).remove(entries[i].0@),
{
    let next = entries.remove(i);
    let key = entries[i].0@;
    assert forall|a: int, b: int| 0 <= a < b < next.len() implies lex_less(
        #[trigger] next[a].0@,
        #[trigger] next[b].0@,
    ) by {
        let a0 = if a < i { a } else { a + 1 };
        let b0 = if b < i { b } else { b + 1 };
        assert(lex_less(entries[a0].0@, entries[b0].0@));
    }
    let left = as_map(next);
    let right = as_map(entries).remove(key);
    lemma_place(entries, i);
    assert forall|k: Seq<char>| left.dom().contains(k) == right.dom().contains(k) by {
        if has_key(next, k) {
            let p = place_of(next, k);
            let q = if p < i { p } else { p + 1 };
            assert(next[p] == entries[q]);
            lemma_place(entries, q);
            if k == key {
                assert(q == i);
            }
        }
        if has_key(entries, k) && k != key {
            let p = place_of(entries, k);
            let q = if p < i { p } else { p - 1 };
            assert(next[q] == entries[p]);
            lemma_place(next, q);
        }
    }
    assert forall|k: Seq<char>| left.dom().contains(k) implies left[k] == right[k] by {
        let p = place_of(next, k);
        lemma_place(next, p);
        let q = if p < i { p } else { p + 1 };
        assert(next[p] == entries[q]);
        lemma_place(entries, q);
    }
    assert(left =~= right);
}

impl<V> OrderedMap<V> {
    /// The keys ascend.
    pub open spec fn wf(&self) -> bool {
        ascending(self.entries@)
    }

    /// The map without entries.
    pub fn new() -> (map: Self)
        ensures
            map.wf(),
            map@ == Map::<Seq<char>, V>::empty(),
            map.entries@.len() == 0,
    {
        let map = OrderedMap { entries: Vec::new() };
        assert(map@ =~= Map::<Seq<char>, V>::empty());
        map
    }

    /// How many entries there are.
    pub fn len(&self) -> (count: usize)
        ensures
            count == self.entries@.len(),
    {
        self.entries.len()
    }

    /// The first position whose key does not come before `key`.
    pub fn lower_bound(&self, key: &str) -> (at: usize)
        requires
            self.wf(),
        ensures
            at <= self.entries@.len(),
            forall|j: int| 0 <= j < at ==> lex_less(#[trigger] self.entries@[j].0@, key@),
            forall|j: int|
                at <= j < self.entries@.len() ==> !lex_less(#[trigger] self.entries@[j].0@, key@),
    {
        let mut low: usize = 0;
        let mut high: usize = self.entries.len();
        while low < high
            invariant
                self.wf(),
                low <= high <= self.entries@.len(),
                forall|j: int| 0 <= j < low ==> lex_less(#[trigger] self.entries@[j].0@, key@),
                forall|j: int|
                    high <= j < self.entries@.len() ==> !lex_less(
                        #[trigger] self.entries@[j].0@,
                        key@,
                    ),
            decreases high - low,
        {
            let mid: usize = low + (high - low) / 2;
            if comes_before(self.entries[mid].0.as_str(), key) {
                proof {
                    assert forall|j: int| 0 <= j < mid + 1 implies lex_less(
                        #[trigger] self.entries@[j].0@,
                        key@,
                    ) by {
                        if j < mid {
                            assert(lex_less(self.entries@[j].0@, self.entries@[mid as int].0@));
                            lemma_lex_transitive(
                                self.entries@[j].0@,
                                self.entries@[mid as int].0@,
                                key@,
                            );
                        }
                    }
                }
                low = mid + 1;
            } else {
                proof {
                    assert forall|j: int| mid <= j < self.entries@.len() implies !lex_less(
                        #[trigger] self.entries@[j].0@,
                        key@,
                    ) by {
                        if mid < j && lex_less(self.entries@[j].0@, key@) {
                            assert(lex_less(self.entries@[mid as int].0@, self.entries@[j].0@));
                            lemma_lex_transitive(
                                self.entries@[mid as int].0@,
                                self.entries@[j].0@,
                                key@,
                            );
                        }
                    }
                }
                high = mid;
            }
        }
        low
    }

    /// The position of the entry with the key `key`, when there is one.
    pub fn find(&self, key: &str) -> (at: Option<usize>)
        requires
            self.wf(),
        ensures
            match at {
                Some(i) => i < self.entries@.len() && self.entries@[i as int].0@ == key@
                    && self@.dom().contains(key@) && self@[key@] == self.entries@[i as int].1,
                None => !self@.dom().contains(key@),
            },
    {
        let at: usize = self.lower_bound(key);
        if at < self.entries.len() && same_text(self.entries[at].0.as_str(), key) {
            proof {
                lemma_place(self.entries@, at as int);
            }
            Some(at)
        } else {
            proof {
                if has_key(self.entries@, key@) {
                    let p = place_of(self.entries@, key@);
                    lemma_lex_irreflexive(key@);
                    if p < at {
                        assert(lex_less(self.entries@[p].0@, key@));
                    } else if at < p {
                        assert(lex_less(self.entries@[at as int].0@, self.entries@[p].0@));
                        assert(!lex_less(self.entries@[at as int].0@, key@));
                    }
                }
            }
            None
        }
    }

    /// Whether there is an entry with the key `key`.
    pub fn contains(&self, key: &str) -> (found: bool)
        requires
            self.wf(),
        ensures
            found == self@.dom().contains(key@),
    {
        self.find(key).is_some()
    }

    /// The value under `key`, when there is one.
    pub fn get(&self, key: &str) -> (value: Option<&V>)
        requires
            self.wf(),
        ensures
            match value {
                Some(v) => self@.dom().contains(key@) && *v == self@[key@],
                None => !self@.dom().contains(key@),
            },
    {
        match self.find(key) {
            Some(at) => Some(&self.entries[at].1),
            None => None,
        }
    }

    /// Puts `value` under `key`, in place of what stood there.
    pub fn insert(&mut self, key: String, value: V)
        requires
            old(self).wf(),
        ensures
            final(self).wf(),
            final(self)@ == old(self)@.insert(key@, value),
    {
        let at: usize = self.lower_bound(key.as_str());
        let ghost before = self.entries@;
        let ghost entry = (key, value);
        if at < self.entries.len() && same_text(self.entries[at].0.as_str(), key.as_str()) {
            proof {
                lemma_update(before, at as int, entry);
            }
            self.entries.set(at, (key, value));
        } else {
            proof {
                assert forall|j: int| at <= j < before.len() implies lex_less(
                    key@,
                    #[trigger] before[j].0@,
                ) by {
                    lemma_lex_total(before[at as int].0@, key@);
                    if at < j {
                        assert(lex_less(before[at as int].0@, before[j].0@));
                        lemma_lex_transitive(key@, before[at as int].0@, before[j].0@);
                    }
                }
                lemma_insert(before, at as int, entry);
            }
            self.entries.insert(at, (key, value));
        }
    }

    /// Takes out the entry with the key `key`, when there is one.
    pub fn remove(&mut self, key: &str)
        requires
            old(self).wf(),
        ensures
            final(self).wf(),
            final(self)@ == old(self)@.remove(key@),
    {
        match self.find(key) {
            Some(at) => {
                proof {
                    lemma_remove(self.entries@, at as int);
                }
                let _ = self.entries.remove(at);
            },
            None => {
                assert(self@.remove(key@) =~= self@);
            },
        }
    }
}

} // verus!
